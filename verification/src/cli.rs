//! The command line tool: choosing a camera, enrolling, testing and managing models,
//! and what is said about it.

use vstd::prelude::*;
use vstd::string::*;

use crate::camera::{
    cameras_by_index, device_path, law_sorted_by_key, resolve_video_symlink, sorted_by_key,
    target_number, video_device_path, CameraInfo, CameraInfoView,
};
use crate::daemon::{no_model_text, well_sized};
use crate::encoding::{encoding_to_vec, to_encoding, Encoding};
use crate::error::{ErrorView, FaceAuthError};
use crate::ipc::{Exchange, Request, Response, ResponseView, ServiceView};
use crate::messages::{say, say1, say2, say3, Message, MessageView};
use crate::model::{
    load_model_from_json, load_outcome, patterns, FaceModel, FaceModelDisk, FileRead, ModelView,
};
use crate::services::{law_line, parse_line};
use crate::text::{
    chars_of, concat2, concat3, contains, decimal, decimal_text, has, is_whitespace, join, joined,
    law_contains, law_contains_part, law_decimal_digits, law_parse_decimal, law_trim,
    law_whitespace, number_in, occurs_at, parse_number, starts_with, trim, trimmed,
};

verus! {

// ---------------------------------------------------------------------------
// Camera lists
// ---------------------------------------------------------------------------

/// The words that a list of cameras is made of, in the user's language.
#[derive(Debug)]
pub struct ListWords {
    /// The title of the list.
    pub title: String,
    /// What stands for the name of a camera that has none.
    pub unknown: String,
    /// What is said of an infrared camera.
    pub recommended: String,
    /// What is said of a camera that may be one.
    pub possible: String,
}

/// The words of a list of cameras in English: the title, what stands for a missing
/// name, and what is said of a camera that is an infrared one or may be one.
pub fn list_messages() -> (r: (Message, Message, Message, Message))
    ensures
        r.0@ == say("Available cameras:"@),
        r.1@ == say("(unknown)"@),
        r.2@ == say("IR, recommended"@),
        r.3@ == say("possible IR"@),
{
    (
        Message::plain("Available cameras:"),
        Message::plain("(unknown)"),
        Message::plain("IR, recommended"),
        Message::plain("possible IR"),
    )
}

/// The words that a list of cameras is made of, each of [`list_messages`] in the user's
/// language.
pub fn list_words(title: String, unknown: String, recommended: String, possible: String) -> (r:
    ListWords)
    ensures
        r == (ListWords { title, unknown, recommended, possible }),
{
    ListWords { title, unknown, recommended, possible }
}

/// What is said of a camera behind its name: that it is an infrared camera where it
/// gives greyscale only, and that it may be one where its name suggests it.
pub open spec fn hint_text(c: CameraInfoView, words: ListWords) -> Seq<char> {
    if c.greyscale_only {
        " ["@ + words.recommended@ + "]"@
    } else if c.suitability() > 0 {
        " ["@ + words.possible@ + "]"@
    } else {
        Seq::empty()
    }
}

/// What is said of a camera behind its name.
pub fn camera_hint(camera: &CameraInfo, words: &ListWords) -> (r: String)
    ensures
        r@ == hint_text(camera@, *words),
{
    if camera.greyscale_only {
        concat3(" [", words.recommended.as_str(), "]")
    } else if camera.suitability() > 0 {
        concat3(" [", words.possible.as_str(), "]")
    } else {
        let r: String = String::new();
        proof {
            assert(r@ =~= Seq::empty());
        }
        r
    }
}

/// The name of a camera as it is shown.
pub open spec fn shown_name(name: Seq<char>, words: ListWords) -> Seq<char> {
    if name.len() == 0 {
        words.unknown@
    } else {
        name
    }
}

/// The name of a camera as it is shown.
pub fn camera_name(camera: &CameraInfo, words: &ListWords) -> (r: String)
    ensures
        r@ == shown_name(camera.name@, *words),
{
    if camera.name.as_str().is_empty() {
        words.unknown.clone()
    } else {
        camera.name.clone()
    }
}

/// A camera in a list, from its device on.
pub open spec fn camera_entry(c: CameraInfoView, words: ListWords) -> Seq<char> {
    device_path(c.index) + "  "@ + shown_name(c.name, words) + hint_text(c, words)
}

fn entry_of(camera: &CameraInfo, words: &ListWords) -> (r: String)
    ensures
        r@ == camera_entry(camera@, *words),
{
    let mut out: String = video_device_path(camera.index);
    out.append("  ");
    out.append(camera_name(camera, words).as_str());
    out.append(camera_hint(camera, words).as_str());
    out
}

/// Cameras by their numbers.
pub open spec fn by_index(cameras: Seq<CameraInfoView>) -> Seq<CameraInfoView> {
    sorted_by_key(cameras, |c: CameraInfoView| c.index as int)
}

/// The lines of a list of cameras: a title, then the cameras by their numbers.
pub fn print_camera_list(cameras: &Vec<CameraInfo>, words: &ListWords) -> (r: Vec<String>)
    ensures
        r.deep_view() == seq![words.title@] + by_index(cameras.deep_view()).map_values(
            |c: CameraInfoView| "  "@ + camera_entry(c, *words),
        ),
{
    let sorted: Vec<CameraInfo> = cameras_by_index(cameras);
    let ghost all = by_index(cameras.deep_view());
    let mut lines: Vec<String> = Vec::new();
    lines.push(words.title.clone());
    let mut i: usize = 0;
    while i < sorted.len()
        invariant
            i <= sorted.len(),
            sorted.deep_view() == all,
            lines@.len() == i + 1,
            lines@[0]@ == words.title@,
            forall|j: int|
                1 <= j <= i ==> (#[trigger] lines@[j])@ == "  "@ + camera_entry(
                    all[j - 1],
                    *words,
                ),
        decreases sorted.len() - i,
    {
        proof {
            assert(all[i as int] == sorted@[i as int]@);
        }
        lines.push(concat2("  ", entry_of(&sorted[i], words).as_str()));
        i = i + 1;
    }
    proof {
        assert(lines.deep_view() =~= seq![words.title@] + all.map_values(
            |c: CameraInfoView| "  "@ + camera_entry(c, *words),
        ));
    }
    lines
}

/// A camera in the list to choose from; the suggested one is marked.
pub open spec fn choice_line(c: CameraInfoView, suggested: u32, words: ListWords) -> Seq<char> {
    "  "@ + (if c.index == suggested {
        "*"@
    } else {
        " "@
    }) + " "@ + decimal(c.index as nat) + ".  "@ + camera_entry(c, words)
}

/// The lines of the list to choose a camera from, by their numbers. The first of
/// `cameras` is the suggested one.
pub fn choice_lines(cameras: &Vec<CameraInfo>, words: &ListWords) -> (r: Vec<String>)
    requires
        cameras@.len() > 0,
    ensures
        r.deep_view() == seq![words.title@] + by_index(cameras.deep_view()).map_values(
            |c: CameraInfoView| choice_line(c, cameras@[0].index, *words),
        ),
{
    let suggested: u32 = cameras[0].index;
    let sorted: Vec<CameraInfo> = cameras_by_index(cameras);
    let ghost all = by_index(cameras.deep_view());
    let mut lines: Vec<String> = Vec::new();
    lines.push(words.title.clone());
    let mut i: usize = 0;
    while i < sorted.len()
        invariant
            i <= sorted.len(),
            sorted.deep_view() == all,
            lines@.len() == i + 1,
            lines@[0]@ == words.title@,
            forall|j: int|
                1 <= j <= i ==> (#[trigger] lines@[j])@ == choice_line(
                    all[j - 1],
                    suggested,
                    *words,
                ),
        decreases sorted.len() - i,
    {
        proof {
            assert(all[i as int] == sorted@[i as int]@);
        }
        let mut line: String = String::from_str("  ");
        line.append(
            if sorted[i].index == suggested {
                "*"
            } else {
                " "
            },
        );
        line.append(" ");
        line.append(decimal_text(sorted[i].index as u64).as_str());
        line.append(".  ");
        line.append(entry_of(&sorted[i], words).as_str());
        lines.push(line);
        i = i + 1;
    }
    proof {
        assert(lines.deep_view() =~= seq![words.title@] + all.map_values(
            |c: CameraInfoView| choice_line(c, cameras@[0].index, *words),
        ));
    }
    lines
}

/// The question behind the list to choose from.
pub fn choice_prompt(cameras: &Vec<CameraInfo>) -> (r: Message)
    requires
        cameras@.len() > 0,
    ensures
        r@ == say1(
            "Select camera (default {index}): "@,
            "{index}"@,
            decimal(cameras@[0].index as nat),
        ),
{
    let r = Message::plain("Select camera (default {index}): ").with(
        "{index}",
        decimal_text(cameras[0].index as u64).as_str(),
    );
    proof {
        assert(r@.fields =~= seq![("{index}"@, decimal(cameras@[0].index as nat))]);
    }
    r
}

/// One of `cameras` has this number.
pub open spec fn has_index(cameras: Seq<CameraInfoView>, index: u32) -> bool {
    exists|i: int| 0 <= i < cameras.len() && (#[trigger] cameras[i]).index == index
}

/// The numbers of `cameras`, in decimal.
pub open spec fn index_texts(cameras: Seq<CameraInfoView>) -> Seq<Seq<char>> {
    cameras.map_values(|c: CameraInfoView| decimal(c.index as nat))
}

/// What the user chose.
pub open spec fn chosen(cameras: Seq<CameraInfoView>, input: Option<Seq<char>>) -> Result<
    u32,
    MessageView,
> {
    match input {
        None => Ok(cameras[0].index),
        Some(line) => if trim(line).len() == 0 {
            Ok(cameras[0].index)
        } else if parse_number(trim(line)) is Some && has_index(
            cameras,
            parse_number(trim(line))->0,
        ) {
            Ok(parse_number(trim(line))->0)
        } else {
            Err(
                say2(
                    "invalid selection '{input}'; expected one of: {options}"@,
                    "{input}"@,
                    trim(line),
                    "{options}"@,
                    join(index_texts(by_index(cameras)), ", "@),
                ),
            )
        },
    }
}

fn find_index(cameras: &Vec<CameraInfo>, index: u32) -> (r: bool)
    ensures
        r == has_index(cameras.deep_view(), index),
{
    let ghost all = cameras.deep_view();
    let mut i: usize = 0;
    while i < cameras.len()
        invariant
            i <= cameras.len(),
            all == cameras.deep_view(),
            forall|j: int| 0 <= j < i ==> (#[trigger] all[j]).index != index,
        decreases cameras.len() - i,
    {
        proof {
            assert(all[i as int] == cameras@[i as int]@);
        }
        if cameras[i].index == index {
            return true;
        }
        i = i + 1;
    }
    false
}

fn index_list(cameras: &Vec<CameraInfo>) -> (r: Vec<String>)
    ensures
        r.deep_view() == index_texts(cameras.deep_view()),
{
    let mut out: Vec<String> = Vec::new();
    let mut i: usize = 0;
    while i < cameras.len()
        invariant
            i <= cameras.len(),
            out@.len() == i,
            forall|j: int|
                0 <= j < i ==> (#[trigger] out@[j])@ == decimal(cameras@[j].index as nat),
        decreases cameras.len() - i,
    {
        out.push(decimal_text(cameras[i].index as u64));
        i = i + 1;
    }
    proof {
        assert(out.deep_view() =~= index_texts(cameras.deep_view()));
    }
    out
}

/// The camera that the user chose, or why the choice is none. `input` is the line
/// that was read, if reading did not fail. The first of `cameras` is the suggested
/// one: an empty line takes it.
pub fn prompt_camera(cameras: &Vec<CameraInfo>, input: Option<String>) -> (r: Result<u32, Message>)
    requires
        cameras@.len() > 0,
    ensures
        match chosen(cameras.deep_view(), input.deep_view()) {
            Ok(index) => r == Ok::<u32, Message>(index),
            Err(m) => r matches Err(e) && e@ == m,
        },
{
    let line: String = match input {
        None => {
            return Ok(cameras[0].index);
        },
        Some(line) => trimmed(line.as_str()),
    };
    if line.as_str().is_empty() {
        return Ok(cameras[0].index);
    }
    let number: Option<u32> = number_in(line.as_str());
    if let Some(n) = number {
        if find_index(cameras, n) {
            return Ok(n);
        }
    }
    let options: String = joined(&index_list(&cameras_by_index(cameras)), ", ");
    let r = Message::plain("invalid selection '{input}'; expected one of: {options}").with(
        "{input}",
        line.as_str(),
    ).with("{options}", options.as_str());
    proof {
        assert(r@.fields =~= seq![("{input}"@, line@), ("{options}"@, options@)]);
    }
    Err(r)
}

/// Whatever the user types, the camera chosen is one of those on offer.
pub proof fn law_choice_is_on_offer(cameras: Seq<CameraInfoView>, input: Option<Seq<char>>)
    requires
        cameras.len() > 0,
    ensures
        chosen(cameras, input) matches Ok(index) ==> has_index(cameras, index),
{
    assert(cameras[0].index == cameras[0].index);
}

// ---------------------------------------------------------------------------
// The camera argument
// ---------------------------------------------------------------------------

/// Whether the user can be asked for a camera, or what to say instead. Without a
/// terminal to ask on, the camera has to be given.
pub fn ask_for_camera(cameras: &Vec<CameraInfo>, is_terminal: bool) -> (r: Result<(), Message>)
    ensures
        if cameras@.len() == 0 {
            r matches Err(m) && m@ == say("no camera devices found"@)
        } else if !is_terminal {
            r matches Err(m) && m@ == say("--camera is required in non-interactive mode"@)
        } else {
            r is Ok
        },
{
    if cameras.len() == 0 {
        Err(Message::plain("no camera devices found"))
    } else if !is_terminal {
        Err(Message::plain("--camera is required in non-interactive mode"))
    } else {
        Ok(())
    }
}

/// A path behind its leading slashes and references to the current directory.
pub open spec fn below_root(path: Seq<char>) -> Seq<char>
    decreases path.len(),
{
    if path.len() > 0 && (path[0] == '/' || (path[0] == '.' && (path.len() == 1 || path[1]
        == '/'))) {
        below_root(path.drop_first())
    } else {
        path
    }
}

/// The path is `/dev` or lies below it.
pub open spec fn under_dev(path: Seq<char>) -> bool {
    let rest = below_root(path);
    &&& path.len() > 0 && path[0] == '/'
    &&& rest.len() >= 3 && rest[0] == 'd' && rest[1] == 'e' && rest[2] == 'v'
    &&& rest.len() == 3 || rest[3] == '/'
}

/// How far it is to the first component of a path that is not the root.
fn root_len(path: &Vec<char>) -> (r: usize)
    ensures
        r <= path@.len(),
        below_root(path@) == path@.skip(r as int),
{
    let mut i: usize = 0;
    proof {
        assert(path@.skip(0) =~= path@);
    }
    while i < path.len() && (path[i] == '/' || (path[i] == '.' && (i + 1 == path.len() || path[i
        + 1] == '/')))
        invariant
            i <= path.len(),
            below_root(path@) == below_root(path@.skip(i as int)),
        decreases path.len() - i,
    {
        proof {
            assert(path@.skip(i as int).drop_first() =~= path@.skip(i + 1));
        }
        i = i + 1;
    }
    i
}

/// Whether the path is `/dev` or lies below it.
pub fn is_device_path(path: &str) -> (r: bool)
    ensures
        r == under_dev(path@),
{
    let v: Vec<char> = chars_of(path);
    if v.len() == 0 || v[0] != '/' {
        return false;
    }
    let i: usize = root_len(&v);
    v.len() - i >= 3 && v[i] == 'd' && v[i + 1] == 'e' && v[i + 2] == 'v' && (v.len() - i == 3
        || v[i + 3] == '/')
}

/// What is known of a camera that was given on the command line. Each target is the
/// file name of what a path resolves to, if it resolves.
pub struct GivenCamera {
    /// The argument.
    pub spec: String,
    /// The target of the argument as a path.
    pub path_target: Option<String>,
    /// The target of the link of that name in the directory of serial numbers.
    pub by_id_target: Option<String>,
    /// The target of the link of that name in the directory of ports.
    pub by_path_target: Option<String>,
}

/// The camera that an argument stands for: a number, a path below `/dev`, or a
/// stable name that leads to one device.
pub open spec fn resolved_camera(g: GivenCamera) -> Result<u32, MessageView> {
    let spec_text = g.spec@;
    let by_id = target_number(g.by_id_target.deep_view());
    let by_path = target_number(g.by_path_target.deep_view());
    if parse_number(spec_text) is Some {
        Ok(parse_number(spec_text)->0)
    } else if under_dev(spec_text) {
        match target_number(g.path_target.deep_view()) {
            Some(index) => Ok(index),
            None => Err(
                say1("could not resolve camera path '{path}'"@, "{path}"@, spec_text),
            ),
        }
    } else {
        match (by_id, by_path) {
            (Some(a), Some(b)) => if a == b {
                Ok(a)
            } else {
                Err(
                    say3(
                        "'{spec}' is ambiguous - matches: {matches}; use a full path instead (e.g. --camera /dev/video{example})"@,
                        "{spec}"@,
                        spec_text,
                        "{matches}"@,
                        device_path(a) + ", "@ + device_path(b),
                        "{example}"@,
                        decimal(a as nat),
                    ),
                )
            },
            (Some(a), None) => Ok(a),
            (None, Some(b)) => Ok(b),
            (None, None) => Err(
                say1(
                    "unrecognised camera '{spec}'; use an index, /dev/videoN path, or udev name"@,
                    "{spec}"@,
                    spec_text,
                ),
            ),
        }
    }
}

/// The camera that was given on the command line, or what is wrong with it.
pub fn resolve_add_camera(given: &GivenCamera) -> (r: Result<u32, Message>)
    ensures
        match resolved_camera(*given) {
            Ok(index) => r == Ok::<u32, Message>(index),
            Err(m) => r matches Err(e) && e@ == m,
        },
{
    let number: Option<u32> = number_in(given.spec.as_str());
    if let Some(n) = number {
        return Ok(n);
    }
    if is_device_path(given.spec.as_str()) {
        return match resolve_video_symlink(&given.path_target) {
            Some(n) => Ok(n),
            None => {
                let m = Message::plain("could not resolve camera path '{path}'").with(
                    "{path}",
                    given.spec.as_str(),
                );
                proof {
                    assert(m@.fields =~= seq![("{path}"@, given.spec@)]);
                }
                Err(m)
            },
        };
    }
    let by_id: Option<u32> = resolve_video_symlink(&given.by_id_target);
    let by_path: Option<u32> = resolve_video_symlink(&given.by_path_target);
    match (by_id, by_path) {
        (Some(a), Some(b)) => {
            if a == b {
                Ok(a)
            } else {
                let matches: String = concat3(
                    video_device_path(a).as_str(),
                    ", ",
                    video_device_path(b).as_str(),
                );
                let m = Message::plain(
                    "'{spec}' is ambiguous - matches: {matches}; use a full path instead (e.g. --camera /dev/video{example})",
                ).with("{spec}", given.spec.as_str()).with("{matches}", matches.as_str()).with(
                    "{example}",
                    decimal_text(a as u64).as_str(),
                );
                proof {
                    assert(m@.fields =~= seq![
                        ("{spec}"@, given.spec@),
                        ("{matches}"@, device_path(a) + ", "@ + device_path(b)),
                        ("{example}"@, decimal(a as nat)),
                    ]);
                }
                Err(m)
            }
        },
        (Some(a), None) => Ok(a),
        (None, Some(b)) => Ok(b),
        (None, None) => {
            let m = Message::plain(
                "unrecognised camera '{spec}'; use an index, /dev/videoN path, or udev name",
            ).with("{spec}", given.spec.as_str());
            proof {
                assert(m@.fields =~= seq![("{spec}"@, given.spec@)]);
            }
            Err(m)
        },
    }
}

/// A camera is accepted only if the argument is its number or leads to it, and no
/// argument leads to two cameras.
pub proof fn law_given_camera_is_unambiguous(g: GivenCamera)
    ensures
        resolved_camera(g) matches Ok(index) ==> parse_number(g.spec@) == Some(index)
            || target_number(g.path_target.deep_view()) == Some(index) || target_number(
            g.by_id_target.deep_view(),
        ) == Some(index) || target_number(g.by_path_target.deep_view()) == Some(index),
        parse_number(g.spec@) is None && !under_dev(g.spec@) && target_number(
            g.by_id_target.deep_view(),
        ) is Some && target_number(g.by_path_target.deep_view()) is Some && target_number(
            g.by_id_target.deep_view(),
        ) != target_number(g.by_path_target.deep_view()) ==> resolved_camera(g) is Err,
{
}

// ---------------------------------------------------------------------------
// Replies
// ---------------------------------------------------------------------------

/// What a program says when it fails.
#[derive(Debug)]
pub enum Complaint {
    /// Something to be said in the user's language.
    Translated(Message),
    /// Something to be said as it is.
    Verbatim(String),
}

/// A [`Complaint`] as a mathematical value.
#[verifier::ext_equal]
pub enum ComplaintView {
    Translated(MessageView),
    Verbatim(Seq<char>),
}

impl View for Complaint {
    type V = ComplaintView;

    open spec fn view(&self) -> ComplaintView {
        match self {
            Complaint::Translated(m) => ComplaintView::Translated(m@),
            Complaint::Verbatim(s) => ComplaintView::Verbatim(s@),
        }
    }
}

/// `r` is what `want` says.
pub open spec fn says(
    r: Result<Message, Complaint>,
    want: Result<MessageView, ComplaintView>,
) -> bool {
    match want {
        Ok(m) => r matches Ok(got) && got@ == m,
        Err(c) => r matches Err(got) && got@ == c,
    }
}

/// What is said where the daemon cannot be reached, or answers something else than
/// was asked for.
pub open spec fn no_answer(reply: Option<Response>) -> ComplaintView {
    if reply is None {
        ComplaintView::Verbatim("daemon not available"@)
    } else {
        ComplaintView::Translated(say("unexpected response from daemon"@))
    }
}

fn unanswered(answered: bool) -> (r: Complaint)
    ensures
        r@ == if answered {
            ComplaintView::Translated(say("unexpected response from daemon"@))
        } else {
            ComplaintView::Verbatim("daemon not available"@)
        },
{
    if answered {
        Complaint::Translated(Message::plain("unexpected response from daemon"))
    } else {
        Complaint::Verbatim(String::from_str("daemon not available"))
    }
}

/// A message with one placeholder.
fn message1(template: &'static str, placeholder: &'static str, value: &str) -> (r: Message)
    ensures
        r@ == say1(template@, placeholder@, value@),
{
    let r = Message::plain(template).with(placeholder, value);
    proof {
        assert(r@.fields =~= seq![(placeholder@, value@)]);
    }
    r
}

/// A message with two placeholders.
fn message2(
    template: &'static str,
    p: &'static str,
    v: &str,
    q: &'static str,
    w: &str,
) -> (r: Message)
    ensures
        r@ == say2(template@, p@, v@, q@, w@),
{
    let r = Message::plain(template).with(p, v).with(q, w);
    proof {
        assert(r@.fields =~= seq![(p@, v@), (q@, w@)]);
    }
    r
}

/// How many seconds the tool waits for an answer of the daemon.
pub const DAEMON_WAIT_SECS: u64 = 120;

/// The daemon's answer; the tool does not ask why there is none.
pub fn daemon_request(exchange: Exchange) -> (r: Option<Response>)
    ensures
        match exchange {
            Exchange::Answer(answer) => r == Some(answer),
            _ => r is None,
        },
{
    match exchange {
        Exchange::Answer(answer) => Some(answer),
        _ => None,
    }
}

/// The user to act for: the one that was given, else the caller.
pub fn acting_user(given: Option<String>, own: Option<String>) -> (r: Result<String, Message>)
    ensures
        match (given, own) {
            (Some(user), _) => r == Ok::<String, Message>(user),
            (None, Some(user)) => r == Ok::<String, Message>(user),
            (None, None) => r matches Err(m) && m@ == say(
                "cannot determine username for current UID"@,
            ),
        },
{
    match given {
        Some(user) => Ok(user),
        None => match own {
            Some(user) => Ok(user),
            None => Err(Message::plain("cannot determine username for current UID")),
        },
    }
}

/// The message says that a user has no model.
pub open spec fn says_not_found(message: Seq<char>) -> bool {
    contains(message, "no model enrolled"@) || contains(message, "No face model found"@)
}

/// Whether an error message says that a user has no model. The daemon says it in
/// one way, reading the file directly in another.
pub fn is_model_not_found(message: &str) -> (r: bool)
    ensures
        r == says_not_found(message@),
{
    has(message, "no model enrolled") || has(message, "No face model found")
}

proof fn lemma_contains_prefix(s: Seq<char>, pat: Seq<char>)
    requires
        pat.len() <= s.len(),
        s.subrange(0, pat.len() as int) =~= pat,
    ensures
        contains(s, pat),
{
    assert(occurs_at(s, pat, 0));
}

/// A user without a model is recognised as such, whether the daemon says so or the
/// file was looked for directly.
pub proof fn law_not_found_is_recognised(username: Seq<char>)
    ensures
        says_not_found(no_model_text(username)),
        says_not_found(ErrorView::ModelNotFound(username).text()),
{
    reveal_strlit("no model enrolled");
    reveal_strlit("no model enrolled for '");
    lemma_contains_prefix(no_model_text(username), "no model enrolled"@);
    reveal_strlit("No face model found");
    reveal_strlit("No face model found for user '");
    lemma_contains_prefix(ErrorView::ModelNotFound(username).text(), "No face model found"@);
}

/// A user's model, or why there is none. `reply` is the daemon's answer, if it
/// answered; `parsed` is what parsing the JSON text in it came to; `read` is what
/// came of reading the model file directly, which counts only without an answer.
pub fn load_model(
    username: &str,
    reply: Option<Response>,
    parsed: Result<FaceModelDisk, String>,
    read: Option<FileRead>,
) -> (r: Result<FaceModel, String>)
    ensures
        match (match reply {
            Some(Response::Model { json: _ }) => model_text_result(
                load_outcome(username@, Some(FileRead::Parsed(parsed))),
            ),
            Some(Response::Failure { message }) => Err(message@),
            Some(_) => Err("unexpected response from daemon"@),
            None => model_text_result(load_outcome(username@, read)),
        }) {
            Ok(m) => r matches Ok(model) && model.wf() && model@ == m,
            Err(why) => r matches Err(m) && m@ == why,
        },
{
    let loaded: Result<FaceModel, FaceAuthError> = match reply {
        Some(Response::Model { json: _ }) => load_model_from_json(parsed),
        Some(Response::Failure { message }) => {
            return Err(message);
        },
        Some(_) => {
            return Err(String::from_str("unexpected response from daemon"));
        },
        None => crate::model::load_model(username, read),
    };
    match loaded {
        Ok(model) => Ok(model),
        Err(e) => Err(e.message()),
    }
}

/// An outcome with the error as text.
pub open spec fn model_text_result(r: Result<ModelView, ErrorView>) -> Result<
    ModelView,
    Seq<char>,
> {
    match r {
        Ok(m) => Ok(m),
        Err(e) => Err(e.text()),
    }
}

// ---------------------------------------------------------------------------
// Enrolling
// ---------------------------------------------------------------------------

/// How the camera for an enrollment is found.
#[derive(Debug)]
pub enum CameraSource {
    /// It is the stored one.
    Stored(u32),
    /// It is the stored one, if the given one is the same.
    Check(u32),
    /// The user decides.
    Choose,
    /// There can be no enrollment, for this reason.
    Refuse(String),
}

/// How the camera for an enrollment is found. A model that is there decides by the
/// camera it was made with; `given` says whether a camera was given.
pub fn enrollment_camera(existing: Result<FaceModel, String>, given: bool) -> (r: CameraSource)
    ensures
        match existing {
            Ok(model) => if given {
                r matches CameraSource::Check(i) && i == model.camera.index
            } else {
                r matches CameraSource::Stored(i) && i == model.camera.index
            },
            Err(m) => if says_not_found(m@) {
                r is Choose
            } else {
                r matches CameraSource::Refuse(why) && why@ == m@
            },
        },
{
    match existing {
        Ok(model) => {
            if given {
                CameraSource::Check(model.camera.index)
            } else {
                CameraSource::Stored(model.camera.index)
            }
        },
        Err(m) => {
            if is_model_not_found(m.as_str()) {
                CameraSource::Choose
            } else {
                CameraSource::Refuse(m)
            }
        },
    }
}

/// The stored camera, if the given one is the same.
pub fn check_camera(user: &str, stored: u32, given: u32) -> (r: Result<u32, Message>)
    ensures
        if given == stored {
            r == Ok::<u32, Message>(stored)
        } else {
            r matches Err(m) && m@ == say2(
                "'{user}' is already enrolled with /dev/video{camera}; omit --camera to add another batch, or run 'faceauth clear' first to change cameras"@,
                "{user}"@,
                user@,
                "{camera}"@,
                decimal(stored as nat),
            )
        },
{
    if given == stored {
        Ok(stored)
    } else {
        Err(
            message2(
                "'{user}' is already enrolled with /dev/video{camera}; omit --camera to add another batch, or run 'faceauth clear' first to change cameras",
                "{user}",
                user,
                "{camera}",
                decimal_text(stored as u64).as_str(),
            ),
        )
    }
}

/// How many encodings an enrollment takes.
pub const ENROLL_COUNT: usize = 5;

/// The distance below which two encodings are too much alike to enroll both, as
/// the bit pattern of 0.3.
pub const SIMILARITY_LIMIT: u64 = 0x3fd3_3333_3333_3333;

/// An enrollment under way.
#[derive(Debug)]
pub struct EnrollRun {
    /// The encodings taken so far.
    pub captured: Vec<Encoding>,
}

/// What became of an encoding that was captured for an enrollment.
#[derive(Debug, Clone, Copy, PartialEq, Eq, Structural)]
pub enum Offer {
    /// It is too much like one that was taken before, at this distance at the least.
    TooSimilar(u64),
    /// It was taken; more are wanted.
    Taken,
    /// It was taken, and is the last.
    Complete,
}

/// One of `distances` is below the limit.
pub open spec fn too_similar(distances: Seq<u64>) -> bool {
    exists|i: int| 0 <= i < distances.len() && #[trigger] distances[i] < SIMILARITY_LIMIT
}

impl EnrollRun {
    /// No more encodings were taken than wanted.
    pub open spec fn wf(&self) -> bool {
        self.captured@.len() <= ENROLL_COUNT
    }

    /// Whether all encodings were taken.
    pub open spec fn complete(&self) -> bool {
        self.captured@.len() == ENROLL_COUNT
    }

    pub fn new() -> (r: EnrollRun)
        ensures
            r.wf(),
            r.captured@.len() == 0,
    {
        EnrollRun { captured: Vec::new() }
    }

    /// Whether all encodings were taken.
    pub fn is_complete(&self) -> (r: bool)
        ensures
            r == self.complete(),
    {
        self.captured.len() == ENROLL_COUNT
    }

    /// Takes `encoding` unless it is too much like one that was taken before.
    /// `distances` are those from it to the encodings taken so far, as bit patterns.
    pub fn offer(&mut self, encoding: Encoding, distances: &Vec<u64>) -> (r: Offer)
        requires
            old(self).wf(),
            !old(self).complete(),
        ensures
            final(self).wf(),
            if too_similar(distances@) {
                final(self).captured@ == old(self).captured@ && (r matches Offer::TooSimilar(d)
                    && distances@.contains(d) && forall|i: int|
                    0 <= i < distances@.len() ==> d <= #[trigger] distances@[i])
            } else {
                final(self).captured@ == old(self).captured@.push(encoding) && r
                    == (if final(self).complete() {
                    Offer::Complete
                } else {
                    Offer::Taken
                })
            },
            r is TooSimilar <==> exists|i: int|
                0 <= i < distances@.len() && #[trigger] distances@[i] < SIMILARITY_LIMIT,
            r is Complete <==> final(self).captured@.len() == ENROLL_COUNT,
    {
        if distances.len() > 0 {
            let mut least: u64 = distances[0];
            let mut i: usize = 1;
            while i < distances.len()
                invariant
                    1 <= i <= distances.len(),
                    distances@.contains(least),
                    forall|j: int| 0 <= j < i ==> least <= #[trigger] distances@[j],
                decreases distances.len() - i,
            {
                if distances[i] < least {
                    least = distances[i];
                    proof {
                        assert(distances@[i as int] == least);
                    }
                }
                i = i + 1;
            }
            proof {
                let k = distances@.index_of(least);
                assert(distances@[k] == least);
            }
            if least < SIMILARITY_LIMIT {
                return Offer::TooSimilar(least);
            }
        }
        self.captured.push(encoding);
        if self.captured.len() == ENROLL_COUNT {
            Offer::Complete
        } else {
            Offer::Taken
        }
    }

    /// What is said before a capture. After the first the user is asked for another
    /// angle; `different_angle` are the words for that.
    pub fn capturing(&self, different_angle: &str) -> (r: Message)
        requires
            self.wf(),
        ensures
            r@ == say3(
                "[{done}/{total}] capturing...{hint}"@,
                "{done}"@,
                decimal((self.captured@.len() + 1) as nat),
                "{total}"@,
                decimal(ENROLL_COUNT as nat),
                "{hint}"@,
                if self.captured@.len() == 0 {
                    Seq::empty()
                } else {
                    " ("@ + different_angle@ + ")"@
                },
            ),
    {
        let hint: String = if self.captured.len() == 0 {
            let empty: String = String::new();
            proof {
                assert(empty@ =~= Seq::empty());
            }
            empty
        } else {
            concat3(" (", different_angle, ")")
        };
        let r = Message::plain("[{done}/{total}] capturing...{hint}").with(
            "{done}",
            decimal_text(self.captured.len() as u64 + 1).as_str(),
        ).with("{total}", decimal_text(ENROLL_COUNT as u64).as_str()).with(
            "{hint}",
            hint.as_str(),
        );
        proof {
            assert(r@.fields =~= seq![
                ("{done}"@, decimal((self.captured@.len() + 1) as nat)),
                ("{total}"@, decimal(ENROLL_COUNT as nat)),
                ("{hint}"@, hint@),
            ]);
        }
        r
    }

    /// What is said of an encoding that is too much like another; `distance` is how
    /// far apart the two are, in writing.
    pub fn too_similar_message(&self, distance: &str) -> (r: Message)
        requires
            self.wf(),
        ensures
            r@ == say3(
                "[{done}/{total}] too similar ({dist}) - adjust angle and hold still"@,
                "{done}"@,
                decimal((self.captured@.len() + 1) as nat),
                "{total}"@,
                decimal(ENROLL_COUNT as nat),
                "{dist}"@,
                distance@,
            ),
    {
        let r = Message::plain(
            "[{done}/{total}] too similar ({dist}) - adjust angle and hold still",
        ).with("{done}", decimal_text(self.captured.len() as u64 + 1).as_str()).with(
            "{total}",
            decimal_text(ENROLL_COUNT as u64).as_str(),
        ).with("{dist}", distance);
        proof {
            assert(r@.fields =~= seq![
                ("{done}"@, decimal((self.captured@.len() + 1) as nat)),
                ("{total}"@, decimal(ENROLL_COUNT as nat)),
                ("{dist}"@, distance@),
            ]);
        }
        r
    }

    /// What is said of an encoding that was taken.
    pub fn captured_message(&self) -> (r: Message)
        ensures
            r@ == say2(
                "[{done}/{total}] captured"@,
                "{done}"@,
                decimal(self.captured@.len()),
                "{total}"@,
                decimal(ENROLL_COUNT as nat),
            ),
    {
        message2(
            "[{done}/{total}] captured",
            "{done}",
            decimal_text(self.captured.len() as u64).as_str(),
            "{total}",
            decimal_text(ENROLL_COUNT as u64).as_str(),
        )
    }

    /// The request to enroll what was captured. The daemon finds every encoding in it
    /// well sized.
    pub fn request(self, username: &str, camera_index: u32) -> (r: Request)
        ensures
            r matches Request::Enroll { username: u, camera_index: c, encodings } && u@
                == username@ && c == camera_index && well_sized(encodings@)
                && encodings@.map_values(|e: Vec<u32>| e@) == patterns(self.captured@),
    {
        let mut encodings: Vec<Vec<u32>> = Vec::new();
        let mut i: usize = 0;
        while i < self.captured.len()
            invariant
                i <= self.captured.len(),
                encodings@.len() == i,
                forall|j: int| 0 <= j < i ==> (#[trigger] encodings@[j])@ == self.captured@[j]@,
            decreases self.captured.len() - i,
        {
            encodings.push(encoding_to_vec(&self.captured[i]));
            i = i + 1;
        }
        proof {
            assert(encodings@.map_values(|e: Vec<u32>| e@) =~= patterns(self.captured@));
        }
        Request::Enroll { username: String::from_str(username), camera_index, encodings }
    }
}

/// No two of the encodings are closer than the limit, by the distances that `dist`
/// gives.
pub open spec fn spread_out(
    captured: Seq<Encoding>,
    dist: spec_fn(Encoding, Encoding) -> u64,
) -> bool {
    forall|i: int, j: int|
        0 <= i < j < captured.len() ==> dist(#[trigger] captured[i], #[trigger] captured[j])
            >= SIMILARITY_LIMIT
}

/// The encodings that an enrollment takes stay spread out.
pub proof fn law_offers_stay_spread_out(
    captured: Seq<Encoding>,
    encoding: Encoding,
    distances: Seq<u64>,
    dist: spec_fn(Encoding, Encoding) -> u64,
)
    requires
        spread_out(captured, dist),
        distances.len() == captured.len(),
        forall|i: int|
            0 <= i < captured.len() ==> #[trigger] distances[i] == dist(captured[i], encoding),
        !too_similar(distances),
    ensures
        spread_out(captured.push(encoding), dist),
{
    let more = captured.push(encoding);
    assert forall|i: int, j: int| 0 <= i < j < more.len() implies dist(
        #[trigger] more[i],
        #[trigger] more[j],
    ) >= SIMILARITY_LIMIT by {
        if j == captured.len() {
            assert(distances[i] == dist(captured[i], encoding));
        } else {
            assert(dist(captured[i], captured[j]) >= SIMILARITY_LIMIT);
        }
    }
}

/// What is said while the enrollment of a user begins.
pub fn enrolling_message(user: &str) -> (r: Message)
    ensures
        r@ == say1("enrolling face for '{user}'"@, "{user}"@, user@),
{
    message1("enrolling face for '{user}'", "{user}", user)
}

/// The encoding that the daemon captured, or what is said instead.
pub fn capture_outcome(reply: Option<Response>) -> (r: Result<Encoding, Complaint>)
    ensures
        match reply {
            Some(answer) => match answer@ {
                ResponseView::Encoding(data) => if data.len() == 128 {
                    r matches Ok(enc) && enc@ == data
                } else {
                    r matches Err(c) && c@ == ComplaintView::Translated(
                        say("capture failed: invalid encoding from daemon"@),
                    )
                },
                ResponseView::Failure(m) => r matches Err(c) && c@ == ComplaintView::Translated(
                    say1("capture failed: {error}"@, "{error}"@, m),
                ),
                _ => r matches Err(c) && c@ == ComplaintView::Translated(
                    say("capture failed: unexpected response from daemon"@),
                ),
            },
            None => r matches Err(c) && c@ == ComplaintView::Verbatim(
                "daemon not available; cannot capture without daemon"@,
            ),
        },
{
    match reply {
        Some(Response::Encoding { data }) => match to_encoding(&data) {
            Some(enc) => Ok(enc),
            None => Err(
                Complaint::Translated(
                    Message::plain("capture failed: invalid encoding from daemon"),
                ),
            ),
        },
        Some(Response::Failure { message }) => Err(
            Complaint::Translated(
                message1("capture failed: {error}", "{error}", message.as_str()),
            ),
        ),
        Some(_) => Err(
            Complaint::Translated(
                Message::plain("capture failed: unexpected response from daemon"),
            ),
        ),
        None => Err(
            Complaint::Verbatim(
                String::from_str("daemon not available; cannot capture without daemon"),
            ),
        ),
    }
}

/// What is said of an enrollment, given the daemon's answer.
pub fn enroll_outcome(user: &str, reply: Option<Response>) -> (r: Result<Message, Complaint>)
    ensures
        says(
            r,
            match reply {
                Some(Response::Success) => Ok(
                    say1("Enrollment successful for '{user}'."@, "{user}"@, user@),
                ),
                Some(Response::Failure { message }) => Err(
                    ComplaintView::Translated(
                        say1("enrollment failed: {error}"@, "{error}"@, message@),
                    ),
                ),
                _ => Err(no_answer(reply)),
            },
        ),
{
    match reply {
        Some(Response::Success) => Ok(
            message1("Enrollment successful for '{user}'.", "{user}", user),
        ),
        Some(Response::Failure { message }) => Err(
            Complaint::Translated(
                message1("enrollment failed: {error}", "{error}", message.as_str()),
            ),
        ),
        Some(_) => Err(unanswered(true)),
        None => Err(unanswered(false)),
    }
}

// ---------------------------------------------------------------------------
// Testing and managing
// ---------------------------------------------------------------------------

/// A camera as it is named to the user.
pub open spec fn camera_display(name: Seq<char>, index: u32) -> Seq<char> {
    if name.len() == 0 {
        device_path(index)
    } else {
        name + " at "@ + device_path(index)
    }
}

/// A camera as it is named to the user.
pub fn display_camera(name: &str, index: u32) -> (r: String)
    ensures
        r@ == camera_display(name@, index),
{
    if name.is_empty() {
        video_device_path(index)
    } else {
        concat3(name, " at ", video_device_path(index).as_str())
    }
}

/// What is said before a test.
pub fn look_message(user: &str, camera_name: &str, index: u32) -> (r: Message)
    ensures
        r@ == say2(
            "'{user}' please look at the camera ({camera}) ..."@,
            "{user}"@,
            user@,
            "{camera}"@,
            camera_display(camera_name@, index),
        ),
{
    message2(
        "'{user}' please look at the camera ({camera}) ...",
        "{user}",
        user,
        "{camera}",
        display_camera(camera_name, index).as_str(),
    )
}

/// The model to test with, or what is said instead. `parsed` is what parsing the
/// JSON text in the daemon's answer came to. Without the daemon there is no test.
pub fn test_model(
    reply: Option<Response>,
    parsed: Result<FaceModelDisk, String>,
) -> (r: Result<FaceModel, Complaint>)
    ensures
        match (match reply {
            Some(Response::Model { json: _ }) => match model_text_result(
                load_outcome(Seq::empty(), Some(FileRead::Parsed(parsed))),
            ) {
                Ok(m) => Ok(m),
                Err(why) => Err(ComplaintView::Verbatim(why)),
            },
            Some(Response::Failure { message }) => Err(ComplaintView::Verbatim(message@)),
            _ => Err(no_answer(reply)),
        }) {
            Ok(m) => r matches Ok(model) && model.wf() && model@ == m,
            Err(c) => r matches Err(got) && got@ == c,
        },
{
    match reply {
        Some(Response::Model { json: _ }) => match load_model_from_json(parsed) {
            Ok(model) => Ok(model),
            Err(e) => Err(Complaint::Verbatim(e.message())),
        },
        Some(Response::Failure { message }) => Err(Complaint::Verbatim(message)),
        Some(_) => Err(unanswered(true)),
        None => Err(unanswered(false)),
    }
}

/// The result that a notification shows after a test, if any: only an answer of the
/// daemon is one.
pub open spec fn test_notification(reply: Option<Response>) -> Option<bool> {
    match reply {
        Some(Response::Success) => Some(true),
        Some(Response::Failure { message: _ }) => Some(false),
        _ => None,
    }
}

/// What is said of a test, given the daemon's answer, and the result that the
/// notification is to show. The test was passed where there is no complaint.
pub fn test_outcome(reply: Option<Response>) -> (r: (Result<Message, Complaint>, Option<bool>))
    ensures
        says(
            r.0,
            match reply {
                Some(Response::Success) => Ok(say("authentication successful"@)),
                Some(Response::Failure { message }) => Err(
                    ComplaintView::Translated(
                        say1("authentication failed: {error}"@, "{error}"@, message@),
                    ),
                ),
                _ => Err(no_answer(reply)),
            },
        ),
        r.1 == test_notification(reply),
{
    match reply {
        Some(Response::Success) => (Ok(Message::plain("authentication successful")), Some(true)),
        Some(Response::Failure { message }) => (
            Err(
                Complaint::Translated(
                    message1("authentication failed: {error}", "{error}", message.as_str()),
                ),
            ),
            Some(false),
        ),
        Some(_) => (Err(unanswered(true)), None),
        None => (Err(unanswered(false)), None),
    }
}

/// What is said of clearing a model, given the daemon's answer.
pub fn clear_outcome(user: &str, reply: Option<Response>) -> (r: Result<Message, Complaint>)
    ensures
        says(
            r,
            match reply {
                Some(Response::Success) => Ok(
                    say1("Model for '{user}' removed."@, "{user}"@, user@),
                ),
                Some(Response::Failure { message }) => Err(
                    ComplaintView::Translated(
                        say1("clear failed: {error}"@, "{error}"@, message@),
                    ),
                ),
                _ => Err(no_answer(reply)),
            },
        ),
{
    match reply {
        Some(Response::Success) => Ok(message1("Model for '{user}' removed.", "{user}", user)),
        Some(Response::Failure { message }) => Err(
            Complaint::Translated(message1("clear failed: {error}", "{error}", message.as_str())),
        ),
        Some(_) => Err(unanswered(true)),
        None => Err(unanswered(false)),
    }
}

/// What is said of allowing or forbidding a service, given the daemon's answer.
pub fn opt_outcome(user: &str, requestor: &str, allowed: bool, reply: Option<Response>) -> (r:
    Result<Message, Complaint>)
    ensures
        says(
            r,
            match reply {
                Some(Response::Success) => Ok(
                    say2(
                        if allowed {
                            "face authentication enabled for '{requestor}' (user '{user}')."@
                        } else {
                            "face authentication disabled for '{requestor}' (user '{user}')."@
                        },
                        "{requestor}"@,
                        requestor@,
                        "{user}"@,
                        user@,
                    ),
                ),
                Some(Response::Failure { message }) => Err(ComplaintView::Verbatim(message@)),
                _ => Err(no_answer(reply)),
            },
        ),
{
    match reply {
        Some(Response::Success) => Ok(
            message2(
                if allowed {
                    "face authentication enabled for '{requestor}' (user '{user}')."
                } else {
                    "face authentication disabled for '{requestor}' (user '{user}')."
                },
                "{requestor}",
                requestor,
                "{user}",
                user,
            ),
        ),
        Some(Response::Failure { message }) => Err(Complaint::Verbatim(message)),
        Some(_) => Err(unanswered(true)),
        None => Err(unanswered(false)),
    }
}

/// A service in a list: a plus sign before those that may use face authentication,
/// a minus sign before the others.
pub open spec fn service_line(e: ServiceView) -> Seq<char> {
    (if e.allowed {
        "+"@
    } else {
        "-"@
    }) + e.name
}

/// The lines that list the services, in the order in which the daemon gave them;
/// `None` if there are none to list; or what is said instead.
pub fn services_outcome(reply: Option<Response>) -> (r: Result<Option<Vec<String>>, Complaint>)
    ensures
        match reply {
            Some(answer) => match answer@ {
                ResponseView::Services(list) => if list.len() == 0 {
                    r matches Ok(None)
                } else {
                    r matches Ok(Some(lines)) && lines.deep_view() == list.map_values(
                        |e: ServiceView| service_line(e),
                    )
                },
                ResponseView::Failure(m) => r matches Err(c) && c@ == ComplaintView::Verbatim(m),
                _ => r matches Err(c) && c@ == no_answer(reply),
            },
            None => r matches Err(c) && c@ == no_answer(reply),
        },
{
    match reply {
        Some(Response::Services { services }) => {
            if services.len() == 0 {
                return Ok(None);
            }
            let mut lines: Vec<String> = Vec::new();
            let mut i: usize = 0;
            while i < services.len()
                invariant
                    i <= services.len(),
                    lines@.len() == i,
                    forall|j: int|
                        0 <= j < i ==> (#[trigger] lines@[j])@ == service_line(services@[j]@),
                decreases services.len() - i,
            {
                lines.push(
                    concat2(
                        if services[i].allowed {
                            "+"
                        } else {
                            "-"
                        },
                        services[i].name.as_str(),
                    ),
                );
                i = i + 1;
            }
            proof {
                assert(lines.deep_view() =~= services.deep_view().map_values(
                    |e: ServiceView| service_line(e),
                ));
            }
            Ok(Some(lines))
        },
        Some(Response::Failure { message }) => Err(Complaint::Verbatim(message)),
        Some(_) => Err(unanswered(true)),
        None => Err(unanswered(false)),
    }
}

/// What is said where no services are listed.
pub fn no_services_message() -> (r: Message)
    ensures
        r@ == say("no services recorded yet"@),
{
    Message::plain("no services recorded yet")
}

/// The words that the description of a model is made of, in the user's language.
#[derive(Debug)]
pub struct InfoWords {
    pub user: String,
    pub uid: String,
    pub camera_index: String,
    pub camera_by_id: String,
    pub camera_by_path: String,
    pub batches: String,
}

/// The words of a description in English: the labels of the user's name and number, of
/// the camera's number and stable names, and of the batches.
pub fn info_messages() -> (r: (Message, Message, Message, Message, Message, Message))
    ensures
        r.0@ == say("User"@),
        r.1@ == say("UID"@),
        r.2@ == say("Camera index"@),
        r.3@ == say("Camera by-id"@),
        r.4@ == say("Camera by-path"@),
        r.5@ == say("Batches"@),
{
    (
        Message::plain("User"),
        Message::plain("UID"),
        Message::plain("Camera index"),
        Message::plain("Camera by-id"),
        Message::plain("Camera by-path"),
        Message::plain("Batches"),
    )
}

/// The words that the description of a model is made of, each of [`info_messages`] in
/// the user's language.
pub fn info_words(
    user: String,
    uid: String,
    camera_index: String,
    camera_by_id: String,
    camera_by_path: String,
    batches: String,
) -> (r: InfoWords)
    ensures
        r == (InfoWords { user, uid, camera_index, camera_by_id, camera_by_path, batches }),
{
    InfoWords { user, uid, camera_index, camera_by_id, camera_by_path, batches }
}

/// One line of a description.
pub open spec fn info_line(label: Seq<char>, value: Seq<char>) -> Seq<char> {
    label + ": "@ + value
}

/// A line of a description for a value that may be missing.
pub open spec fn optional_line(label: Seq<char>, value: Option<Seq<char>>) -> Seq<Seq<char>> {
    match value {
        Some(v) => seq![info_line(label, v)],
        None => Seq::empty(),
    }
}

/// The description of a model: the user, the camera by its number and stable names,
/// and how many batches are enrolled.
pub open spec fn info_text(
    words: InfoWords,
    username: Seq<char>,
    uid: Option<u32>,
    m: ModelView,
) -> Seq<Seq<char>> {
    seq![info_line(words.user@, username)] + optional_line(
        words.uid@,
        match uid {
            Some(n) => Some(decimal(n as nat)),
            None => None,
        },
    ) + seq![
        info_line(
            words.camera_index@,
            decimal(m.camera.index as nat) + " ("@ + device_path(m.camera.index) + ")"@,
        ),
    ] + optional_line(words.camera_by_id@, m.camera.by_id) + optional_line(
        words.camera_by_path@,
        m.camera.by_path,
    ) + seq![info_line(words.batches@, decimal(m.batches.len()))]
}

fn push_line(lines: &mut Vec<String>, label: &str, value: &str)
    ensures
        final(lines).deep_view() == old(lines).deep_view() + seq![info_line(label@, value@)],
{
    let ghost before = lines.deep_view();
    lines.push(concat3(label, ": ", value));
    proof {
        assert(lines.deep_view() =~= before + seq![info_line(label@, value@)]);
    }
}

fn push_optional(lines: &mut Vec<String>, label: &str, value: &Option<String>)
    ensures
        final(lines).deep_view() == old(lines).deep_view() + optional_line(
            label@,
            value.deep_view(),
        ),
{
    proof {
        assert(lines.deep_view() + Seq::<Seq<char>>::empty() =~= lines.deep_view());
    }
    match value {
        Some(v) => push_line(lines, label, v.as_str()),
        None => {},
    }
}

/// The lines that describe a model.
pub fn info_lines(words: &InfoWords, username: &str, uid: Option<u32>, model: &FaceModel) -> (r:
    Vec<String>)
    requires
        model.wf(),
    ensures
        r.deep_view() == info_text(*words, username@, uid, model@),
{
    let mut lines: Vec<String> = Vec::new();
    proof {
        assert(lines.deep_view() + seq![info_line(words.user@, username@)] =~= seq![
            info_line(words.user@, username@),
        ]);
    }
    push_line(&mut lines, words.user.as_str(), username);
    let uid_text: Option<String> = match uid {
        Some(n) => Some(decimal_text(n as u64)),
        None => None,
    };
    push_optional(&mut lines, words.uid.as_str(), &uid_text);
    let mut place: String = decimal_text(model.camera.index as u64);
    place.append(" (");
    place.append(video_device_path(model.camera.index).as_str());
    place.append(")");
    push_line(&mut lines, words.camera_index.as_str(), place.as_str());
    push_optional(&mut lines, words.camera_by_id.as_str(), &model.camera.by_id);
    push_optional(&mut lines, words.camera_by_path.as_str(), &model.camera.by_path);
    push_line(
        &mut lines,
        words.batches.as_str(),
        decimal_text(model.batch_count() as u64).as_str(),
    );
    lines
}

// ---------------------------------------------------------------------------
// Status lines
// ---------------------------------------------------------------------------

/// How wide a status line is.
pub const STATUS_WIDTH: usize = 72;

/// `s` with blanks at its end, at least as long as a status line.
pub open spec fn padded(s: Seq<char>) -> Seq<char> {
    s + Seq::new(
        if s.len() < STATUS_WIDTH {
            (STATUS_WIDTH - s.len()) as nat
        } else {
            0
        },
        |i: int| ' ',
    )
}

fn pad(s: &str) -> (r: String)
    ensures
        r@ == padded(s@),
{
    let mut out: String = String::from_str(s);
    let mut n: usize = chars_of(s).len();
    let ghost base = s@;
    proof {
        assert(out@ =~= base + Seq::new(0, |i: int| ' '));
    }
    while n < STATUS_WIDTH
        invariant
            base.len() <= n,
            base.len() <= STATUS_WIDTH ==> n <= STATUS_WIDTH,
            base.len() > STATUS_WIDTH ==> n == base.len(),
            out@ == base + Seq::new((n - base.len()) as nat, |i: int| ' '),
        decreases STATUS_WIDTH - n,
    {
        out.push(' ');
        n = n + 1;
        proof {
            assert(out@ =~= base + Seq::new((n - base.len()) as nat, |i: int| ' '));
        }
    }
    proof {
        assert(out@ =~= padded(s@));
    }
    out
}

/// A status that replaces the one on the current line.
pub fn status_line(message: &str) -> (r: String)
    ensures
        r@ == "\r  "@ + padded(message@),
{
    concat2("\r  ", pad(message).as_str())
}

/// A status that replaces the one on the current line, and stays.
pub fn status_done_line(message: &str) -> (r: String)
    ensures
        r@ == "\rfaceauth: "@ + padded(message@),
{
    concat2("\rfaceauth: ", pad(message).as_str())
}

/// A status hides the one that it replaces, if that fits a status line.
pub proof fn law_status_hides_previous(previous: Seq<char>, message: Seq<char>)
    requires
        previous.len() <= STATUS_WIDTH,
    ensures
        padded(message).len() >= padded(previous).len(),
{
}

// ---------------------------------------------------------------------------
// Laws
// ---------------------------------------------------------------------------

/// A camera that gives greyscale only is recommended whatever its name is; of another
/// something is said exactly if its name suggests infrared.
pub proof fn law_hint(c: CameraInfoView, words: ListWords)
    ensures
        c.greyscale_only ==> hint_text(c, words) == " ["@ + words.recommended@ + "]"@,
        !c.greyscale_only && c.suitability() != 0 ==> hint_text(c, words) == " ["@
            + words.possible@ + "]"@,
        hint_text(c, words).len() == 0 <==> !c.greyscale_only && c.suitability() == 0,
{
    reveal_strlit(" [");
}

/// An entry of a list holds the camera's device, its name where it has one, and the hint.
pub proof fn law_entry_describes(c: CameraInfoView, words: ListWords, suggested: u32)
    ensures
        starts_with(camera_entry(c, words), device_path(c.index)),
        c.name.len() > 0 ==> contains(camera_entry(c, words), c.name),
        c.name.len() == 0 ==> contains(camera_entry(c, words), words.unknown@),
        contains(choice_line(c, suggested, words), camera_entry(c, words)),
        contains(choice_line(c, suggested, words), decimal(c.index as nat)),
        choice_line(c, suggested, words)[2] == (if c.index == suggested {
            '*'
        } else {
            ' '
        }),
{
    reveal_strlit("  ");
    reveal_strlit("*");
    reveal_strlit(" ");
    let path = device_path(c.index);
    let shown = shown_name(c.name, words);
    let entry = camera_entry(c, words);
    assert(entry.subrange(0, path.len() as int) =~= path);
    law_contains_part(path + "  "@, shown, hint_text(c, words), shown);
    let mark = if c.index == suggested {
        "*"@
    } else {
        " "@
    };
    let d = decimal(c.index as nat);
    let line = choice_line(c, suggested, words);
    let front = "  "@ + mark + " "@ + d + ".  "@;
    assert(line.subrange(front.len() as int, line.len() as int) =~= entry);
    assert(occurs_at(line, entry, front.len() as int));
    let head = "  "@ + mark + " "@;
    assert(line =~= head + d + (".  "@ + entry));
    law_contains_part(head, d, ".  "@ + entry, d);
}

/// Cameras by their numbers are the same cameras, none before one with a smaller number.
pub proof fn law_by_index(cameras: Seq<CameraInfoView>)
    ensures
        by_index(cameras).to_multiset() == cameras.to_multiset(),
        by_index(cameras).len() == cameras.len(),
        forall|i: int, j: int|
            0 <= i <= j < by_index(cameras).len() ==> (#[trigger] by_index(cameras)[i]).index <= (
            #[trigger] by_index(cameras)[j]).index,
{
    let key = |c: CameraInfoView| c.index as int;
    law_sorted_by_key(cameras, key);
    let sorted = by_index(cameras);
    assert forall|i: int, j: int| 0 <= i <= j < sorted.len() implies (#[trigger] sorted[i]).index
        <= (#[trigger] sorted[j]).index by {
        assert(key(sorted[i]) <= key(sorted[j]));
    }
}

/// Every camera on offer can be chosen by its number, with white space around it or
/// without, wherever it stands in the list; no other number can. Nothing typed takes the
/// first.
pub proof fn law_any_camera_can_be_chosen(
    cameras: Seq<CameraInfoView>,
    n: u32,
    before: Seq<char>,
    after: Seq<char>,
)
    requires
        cameras.len() > 0,
        forall|i: int| 0 <= i < before.len() ==> is_whitespace(#[trigger] before[i]),
        forall|i: int| 0 <= i < after.len() ==> is_whitespace(#[trigger] after[i]),
    ensures
        chosen(cameras, Some(before + decimal(n as nat) + after)) == Ok::<u32, MessageView>(n)
            <==> exists|k: int| 0 <= k < cameras.len() && (#[trigger] cameras[k]).index == n,
        chosen(cameras, Some(before + after)) == Ok::<u32, MessageView>(cameras[0].index),
        chosen(cameras, None) == Ok::<u32, MessageView>(cameras[0].index),
{
    let d = decimal(n as nat);
    let none = Seq::<char>::empty();
    law_decimal_digits(n as nat);
    law_whitespace(d[0]);
    law_whitespace(d[d.len() - 1]);
    assert('0' <= d[0] <= '9');
    assert('0' <= d[d.len() - 1] <= '9');
    law_trim(before, d, after);
    law_parse_decimal(n);
    law_trim(before, none, after);
    assert(before + none + after =~= before + after);
}

/// What is typed has to be the number of a camera, in any form that numbers are read in;
/// anything else is refused.
pub proof fn law_bad_choice_is_refused(cameras: Seq<CameraInfoView>, line: Seq<char>)
    requires
        trim(line).len() > 0,
    ensures
        chosen(cameras, Some(line)) matches Ok(index) ==> parse_number(trim(line)) == Some(index),
        parse_number(trim(line)) is None ==> chosen(cameras, Some(line)) is Err,
        forall|k: int|
            0 <= k < cameras.len() && parse_number(trim(line)) == Some(
                (#[trigger] cameras[k]).index,
            ) ==> chosen(cameras, Some(line)) == Ok::<u32, MessageView>(cameras[k].index),
        (forall|k: int|
            0 <= k < cameras.len() ==> parse_number(trim(line)) != Some(
                (#[trigger] cameras[k]).index,
            )) ==> chosen(cameras, Some(line)) is Err,
        forall|i: int|
            0 <= i < cameras.len() ==> index_texts(cameras)[i] == decimal(
                (#[trigger] cameras[i]).index as nat,
            ),
        index_texts(cameras).len() == cameras.len(),
{
}

proof fn lemma_below_root(path: Seq<char>)
    requires
        path.len() > 0,
    ensures
        path[0] == '/' ==> below_root(path) == below_root(path.skip(1)),
        path.len() > 1 && path[0] == '.' && path[1] == '/' ==> below_root(path) == below_root(
            path.skip(1),
        ),
        path == seq!['.'] ==> below_root(path).len() == 0,
{
    assert(path.drop_first() =~= path.skip(1));
    if path == seq!['.'] {
        assert(path.drop_first() =~= Seq::empty());
        assert(below_root(path.drop_first()) == path.drop_first());
    }
}

/// A path lies below `/dev` exactly if it begins at the root and its first component is
/// `dev`; more slashes and references to the current directory in front make no
/// difference.
pub proof fn law_device_paths(component: Seq<char>, rest: Seq<char>, path: Seq<char>)
    requires
        component.len() > 0,
        component != seq!['.'],
        forall|i: int| 0 <= i < component.len() ==> #[trigger] component[i] != '/',
    ensures
        under_dev(seq!['/'] + component) <==> component == seq!['d', 'e', 'v'],
        under_dev(seq!['/'] + component + (seq!['/'] + rest)) <==> component == seq!['d', 'e', 'v'],
        under_dev(seq!['/', '/'] + path) <==> under_dev(seq!['/'] + path),
        under_dev(seq!['/', '.', '/'] + path) <==> under_dev(seq!['/'] + path),
        under_dev(path) ==> path.len() > 0 && path[0] == '/',
{
    let short = seq!['/'] + component;
    assert(short.skip(1) =~= component);
    lemma_below_root(short);
    assert(component[0] != '/');
    if component[0] == '.' && component.len() == 1 {
        assert(component =~= seq!['.']);
    }
    if component.len() > 1 {
        assert(component[1] != '/');
    }
    assert(below_root(component) == component);
    if component.len() > 3 {
        assert(component[3] != '/');
    }
    if under_dev(short) {
        assert(component =~= seq!['d', 'e', 'v']);
    }
    let tail = component + (seq!['/'] + rest);
    let long = seq!['/'] + component + (seq!['/'] + rest);
    assert(long.skip(1) =~= tail);
    lemma_below_root(long);
    assert(tail[0] == component[0]);
    if component.len() > 1 {
        assert(tail[1] == component[1]);
    }
    assert(below_root(tail) == tail);
    if under_dev(long) {
        if component.len() >= 3 {
            assert(tail[0] == component[0] && tail[1] == component[1] && tail[2] == component[2]);
            if component.len() > 3 {
                assert(tail[3] == component[3]);
            }
            assert(component =~= seq!['d', 'e', 'v']);
        } else {
            assert(tail[component.len() as int] == '/');
        }
    }
    if component == seq!['d', 'e', 'v'] {
        assert(tail[3] == '/');
    }
    let one = seq!['/'] + path;
    let two = seq!['/', '/'] + path;
    assert(two.skip(1) =~= one);
    lemma_below_root(two);
    let dotted = seq!['/', '.', '/'] + path;
    assert(dotted.skip(1) =~= seq!['.', '/'] + path);
    lemma_below_root(dotted);
    lemma_below_root(seq!['.', '/'] + path);
    assert((seq!['.', '/'] + path).skip(1) =~= one);
}

/// How an argument is taken: a number is that camera, whatever else it could mean; a path
/// below `/dev` is where it leads; a stable name is where it leads in either directory,
/// if it leads to one camera only; anything else is an error.
pub proof fn law_given_camera(g: GivenCamera, n: u32)
    ensures
        g.spec@ == decimal(n as nat) ==> resolved_camera(g) == Ok::<u32, MessageView>(n),
        parse_number(g.spec@) == Some(n) ==> resolved_camera(g) == Ok::<u32, MessageView>(n),
        parse_number(g.spec@) is None && under_dev(g.spec@) ==> (resolved_camera(g) == Ok::<
            u32,
            MessageView,
        >(n) <==> target_number(g.path_target.deep_view()) == Some(n)) && (resolved_camera(g) is Err
            <==> target_number(g.path_target.deep_view()) is None),
        parse_number(g.spec@) is None && !under_dev(g.spec@) ==> ({
            let by_id = target_number(g.by_id_target.deep_view());
            let by_path = target_number(g.by_path_target.deep_view());
            &&& by_id == Some(n) && (by_path is None || by_path == Some(n)) ==> resolved_camera(g)
                == Ok::<u32, MessageView>(n)
            &&& by_path == Some(n) && (by_id is None || by_id == Some(n)) ==> resolved_camera(g)
                == Ok::<u32, MessageView>(n)
            &&& resolved_camera(g) is Err <==> (by_id is None && by_path is None) || (by_id is Some
                && by_path is Some && by_id != by_path)
        }),
{
    law_parse_decimal(n);
}

/// A message says that there is no model exactly if one of the two phrases stands in it.
pub proof fn law_not_found_phrases(message: Seq<char>)
    ensures
        says_not_found(message) <==> exists|before: Seq<char>, phrase: Seq<char>, after: Seq<char>|
            message == #[trigger] (before + phrase + after) && (phrase == "no model enrolled"@
                || phrase == "No face model found"@),
{
    law_contains(message, "no model enrolled"@);
    law_contains(message, "No face model found"@);
    if says_not_found(message) {
        let phrase = if contains(message, "no model enrolled"@) {
            "no model enrolled"@
        } else {
            "No face model found"@
        };
        let (before, after) = choose|before: Seq<char>, after: Seq<char>|
            message == #[trigger] (before + phrase + after);
        assert(message == before + phrase + after);
    }
    if exists|before: Seq<char>, phrase: Seq<char>, after: Seq<char>|
        message == #[trigger] (before + phrase + after) && (phrase == "no model enrolled"@ || phrase
            == "No face model found"@) {
        let (before, phrase, after) = choose|
            before: Seq<char>,
            phrase: Seq<char>,
            after: Seq<char>,
        |
            message == #[trigger] (before + phrase + after) && (phrase == "no model enrolled"@
                || phrase == "No face model found"@);
        law_contains(message, phrase);
    }
}

/// Two encodings are too much alike exactly if their distance is below 0.3, given by its
/// bit pattern here, with whichever of those taken before; an enrollment takes five.
pub proof fn law_too_similar(distances: Seq<u64>, more: Seq<u64>, run: EnrollRun)
    ensures
        too_similar(distances) <==> exists|i: int|
            0 <= i < distances.len() && #[trigger] distances[i] < 0x3fd3_3333_3333_3333,
        too_similar(distances + more) <==> too_similar(distances) || too_similar(more),
        run.complete() <==> run.captured@.len() == 5,
        run.wf() <==> run.captured@.len() <= 5,
{
    let all = distances + more;
    if too_similar(all) {
        let i = choose|i: int| 0 <= i < all.len() && #[trigger] all[i] < SIMILARITY_LIMIT;
        if i < distances.len() {
            assert(distances[i] < SIMILARITY_LIMIT);
        } else {
            assert(more[i - distances.len()] < SIMILARITY_LIMIT);
        }
    }
    if too_similar(distances) {
        let i = choose|i: int|
            0 <= i < distances.len() && #[trigger] distances[i] < SIMILARITY_LIMIT;
        assert(all[i] < SIMILARITY_LIMIT);
    }
    if too_similar(more) {
        let i = choose|i: int| 0 <= i < more.len() && #[trigger] more[i] < SIMILARITY_LIMIT;
        assert(all[distances.len() + i] < SIMILARITY_LIMIT);
    }
}

/// A camera is named to the user by its device, and by its name where it has one.
pub proof fn law_camera_display(name: Seq<char>, index: u32)
    ensures
        contains(camera_display(name, index), device_path(index)),
        starts_with(camera_display(name, index), name),
        name.len() == 0 ==> camera_display(name, index) == device_path(index),
{
    let path = device_path(index);
    let shown = camera_display(name, index);
    assert(shown.subrange(0, name.len() as int) =~= name);
    let at = shown.len() - path.len();
    assert(shown.subrange(at, shown.len() as int) =~= path);
    assert(occurs_at(shown, path, at));
}

/// The description of a model has a line for the user, the camera and the batches, and
/// one more for each of the user's number and the camera's stable names that is known.
pub proof fn law_info_lines(words: InfoWords, username: Seq<char>, uid: Option<u32>, m: ModelView)
    ensures
        ({
            let text = info_text(words, username, uid, m);
            let known = (if uid is Some {
                1int
            } else {
                0
            });
            let by_id = (if m.camera.by_id is Some {
                1int
            } else {
                0
            });
            let by_path = (if m.camera.by_path is Some {
                1int
            } else {
                0
            });
            &&& text.len() == 3 + known + by_id + by_path
            &&& text[0] == words.user@ + ": "@ + username
            &&& uid matches Some(n) ==> text[1] == words.uid@ + ": "@ + decimal(n as nat)
            &&& text[1 + known] == words.camera_index@ + ": "@ + (decimal(m.camera.index as nat)
                + " ("@ + device_path(m.camera.index) + ")"@)
            &&& m.camera.by_id matches Some(id) ==> text[2 + known] == words.camera_by_id@ + ": "@
                + id
            &&& m.camera.by_path matches Some(port) ==> text[2 + known + by_id]
                == words.camera_by_path@ + ": "@ + port
            &&& text.last() == words.batches@ + ": "@ + decimal(m.batches.len())
        }),
{
}

/// A status keeps its text in front, is filled up with blanks, and is 72 characters wide
/// unless the text is wider.
pub proof fn law_padded(s: Seq<char>, i: int)
    ensures
        padded(s).len() == if s.len() < 72 {
            72
        } else {
            s.len() as int
        },
        0 <= i < s.len() ==> padded(s)[i] == s[i],
        s.len() <= i < padded(s).len() ==> padded(s)[i] == ' ',
{
}

/// Only an answer of the daemon is shown as the result of a test: success as passed, a
/// failure as not.
pub proof fn law_test_notification(reply: Option<Response>)
    ensures
        test_notification(reply) == Some(true) <==> (reply matches Some(Response::Success)),
        test_notification(reply) == Some(false) <==> (reply matches Some(
            Response::Failure { message: _ },
        )),
{
}

/// Without an answer it is said that the daemon cannot be reached, with an odd one that
/// the answer was not expected; a model that was read is kept, and an error becomes its
/// text.
pub proof fn law_odd_answers(reply: Option<Response>, r: Result<ModelView, ErrorView>)
    ensures
        no_answer(reply) is Verbatim <==> reply is None,
        no_answer(reply) is Translated <==> reply is Some,
        model_text_result(r) is Ok <==> r is Ok,
        r matches Ok(m) ==> model_text_result(r) == Ok::<ModelView, Seq<char>>(m),
        r matches Err(e) ==> model_text_result(r) == Err::<ModelView, Seq<char>>(e.text()),
{
}

/// What is to be said is said: a message where all went well, else the complaint, in the
/// user's language or as it is.
pub proof fn law_says(
    r: Result<Message, Complaint>,
    want: Result<MessageView, ComplaintView>,
)
    requires
        says(r, want),
    ensures
        r is Ok <==> want is Ok,
        r is Ok ==> r->Ok_0@ == want->Ok_0,
        r is Err ==> match (r->Err_0, want->Err_0) {
            (Complaint::Translated(m), ComplaintView::Translated(t)) => m@ == t,
            (Complaint::Verbatim(s), ComplaintView::Verbatim(t)) => s@ == t,
            _ => false,
        },
{
}

/// A service is listed as it stands in the files of lists: a line of the listing read as
/// one of a file says the same of the same service.
pub proof fn law_listed_services_read_alike(e: ServiceView)
    requires
        e.name.len() > 0,
        !is_whitespace(e.name.last()),
    ensures
        parse_line(service_line(e)) == Some(e),
{
    reveal_strlit("+");
    reveal_strlit("-");
    let none = Seq::<char>::empty();
    law_line(none, e.name, none, service_line(e));
    assert(none + (seq!['+'] + e.name) + none =~= "+"@ + e.name);
    assert(none + (seq!['-'] + e.name) + none =~= "-"@ + e.name);
}

}
