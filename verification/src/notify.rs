//! Desktop notifications: what the helper is told on its command line, and what it
//! shows.
//!
//! ```text
//! faceauth-notify start   <uid> <service> [<caller> [<milliseconds>]]
//! faceauth-notify success <uid> <id> <service> [<caller>]
//! faceauth-notify failure <uid> <id> <service> [<caller>]
//! ```

use vstd::prelude::*;
use vstd::string::*;

use crate::messages::{say, say1, say2, Message, MessageView};
use crate::text::{
    concat3, decimal, decimal_text, law_parse_decimal, number_in, parse_number, same_text, trim,
    trimmed,
};

verus! {

/// What a notification is about.
#[derive(Debug, Clone, Copy, PartialEq, Eq, Structural)]
pub enum Stage {
    /// Authentication has begun.
    Start,
    /// It succeeded.
    Success,
    /// It failed.
    Failure,
}

/// A notification to show.
#[derive(Debug)]
pub struct Notice {
    pub stage: Stage,
    /// The user to show it to.
    pub uid: u32,
    /// The notification that it replaces, if it replaces one.
    pub replaces: Option<u32>,
    /// The service that asks for authentication.
    pub service: String,
    /// The program that started it; empty if that is not known.
    pub caller: String,
    /// How long to show it, in milliseconds.
    pub timeout_ms: u32,
}

/// A [`Notice`] as a mathematical value.
#[verifier::ext_equal]
pub struct NoticeView {
    pub stage: Stage,
    pub uid: u32,
    pub replaces: Option<u32>,
    pub service: Seq<char>,
    pub caller: Seq<char>,
    pub timeout_ms: u32,
}

impl View for Notice {
    type V = NoticeView;

    open spec fn view(&self) -> NoticeView {
        NoticeView {
            stage: self.stage,
            uid: self.uid,
            replaces: self.replaces,
            service: self.service@,
            caller: self.caller@,
            timeout_ms: self.timeout_ms,
        }
    }
}

/// Argument `i`, or `otherwise` if there are not so many.
pub open spec fn argument(args: Seq<Seq<char>>, i: int, otherwise: Seq<char>) -> Seq<char> {
    if i < args.len() {
        args[i]
    } else {
        otherwise
    }
}

/// The number that argument `i` is, if there is such an argument and it is one.
pub open spec fn number_argument(args: Seq<Seq<char>>, i: int) -> Option<u32> {
    if i < args.len() {
        parse_number(args[i])
    } else {
        None
    }
}

pub open spec fn number_or(n: Option<u32>, otherwise: u32) -> u32 {
    match n {
        Some(v) => v,
        None => otherwise,
    }
}

/// The notification that a command line asks for, if it asks for one. The first
/// argument is the program's own name.
pub open spec fn requested_notice(args: Seq<Seq<char>>) -> Option<NoticeView> {
    let uid = number_or(number_argument(args, 2), 0);
    if args.len() < 3 {
        None
    } else if args[1] == "start"@ {
        Some(
            NoticeView {
                stage: Stage::Start,
                uid,
                replaces: None,
                service: argument(args, 3, "unknown"@),
                caller: argument(args, 4, Seq::empty()),
                timeout_ms: number_or(number_argument(args, 5), 8000),
            },
        )
    } else if (args[1] == "success"@ || args[1] == "failure"@) && number_argument(args, 3) is Some {
        Some(
            NoticeView {
                stage: if args[1] == "success"@ {
                    Stage::Success
                } else {
                    Stage::Failure
                },
                uid,
                replaces: number_argument(args, 3),
                service: argument(args, 4, "unknown"@),
                caller: argument(args, 5, Seq::empty()),
                timeout_ms: 5000,
            },
        )
    } else {
        None
    }
}

fn text_at(args: &Vec<String>, i: usize, otherwise: &str) -> (r: String)
    ensures
        r@ == argument(args.deep_view(), i as int, otherwise@),
{
    if i < args.len() {
        args[i].clone()
    } else {
        String::from_str(otherwise)
    }
}

fn number_at(args: &Vec<String>, i: usize) -> (r: Option<u32>)
    ensures
        r == number_argument(args.deep_view(), i as int),
{
    if i < args.len() {
        number_in(args[i].as_str())
    } else {
        None
    }
}

/// The notification that a command line asks for, if it asks for one. The first
/// argument is the program's own name.
pub fn parse_args(args: &Vec<String>) -> (r: Option<Notice>)
    ensures
        match requested_notice(args.deep_view()) {
            Some(n) => r matches Some(got) && got@ == n,
            None => r is None,
        },
{
    if args.len() < 3 {
        return None;
    }
    proof {
        reveal_strlit("");
        assert(""@ =~= Seq::<char>::empty());
    }
    let number: Option<u32> = number_at(args, 2);
    let uid: u32 = match number {
        Some(n) => n,
        None => 0,
    };
    if same_text(args[1].as_str(), "start") {
        let asked: Option<u32> = number_at(args, 5);
        let timeout_ms: u32 = match asked {
            Some(n) => n,
            None => 8000,
        };
        return Some(
            Notice {
                stage: Stage::Start,
                uid,
                replaces: None,
                service: text_at(args, 3, "unknown"),
                caller: text_at(args, 4, ""),
                timeout_ms,
            },
        );
    }
    let stage: Stage = if same_text(args[1].as_str(), "success") {
        Stage::Success
    } else if same_text(args[1].as_str(), "failure") {
        Stage::Failure
    } else {
        return None;
    };
    let replaces: Option<u32> = number_at(args, 3);
    if replaces.is_none() {
        return None;
    }
    Some(
        Notice {
            stage,
            uid,
            replaces,
            service: text_at(args, 4, "unknown"),
            caller: text_at(args, 5, ""),
            timeout_ms: 5000,
        },
    )
}

/// What is said about who asks for authentication.
pub open spec fn requested_by(service: Seq<char>, caller: Seq<char>) -> MessageView {
    if caller.len() == 0 || caller == service {
        say1("Requested by: {service}"@, "{service}"@, service)
    } else {
        say2(
            "Requested by: {service} via {caller}"@,
            "{service}"@,
            service,
            "{caller}"@,
            caller,
        )
    }
}

/// What is said about who asks for authentication.
pub fn requested_by_body(service: &str, caller: &str) -> (r: Message)
    ensures
        r@ == requested_by(service@, caller@),
{
    if caller.is_empty() || same_text(caller, service) {
        let r = Message::plain("Requested by: {service}").with("{service}", service);
        proof {
            assert(r@.fields =~= seq![("{service}"@, service@)]);
        }
        r
    } else {
        let r = Message::plain("Requested by: {service} via {caller}").with(
            "{service}",
            service,
        ).with("{caller}", caller);
        proof {
            assert(r@.fields =~= seq![("{service}"@, service@), ("{caller}"@, caller@)]);
        }
        r
    }
}

impl Notice {
    /// The title of the notification.
    pub fn summary(&self) -> (r: Message)
        ensures
            r@ == say(
                match self.stage {
                    Stage::Start => "Face Authentication ..."@,
                    Stage::Success => "Face Authentication Successful"@,
                    Stage::Failure => "Face Authentication Failed"@,
                },
            ),
    {
        match self.stage {
            Stage::Start => Message::plain("Face Authentication ..."),
            Stage::Success => Message::plain("Face Authentication Successful"),
            Stage::Failure => Message::plain("Face Authentication Failed"),
        }
    }

    /// The text of the notification.
    pub fn body(&self) -> (r: Message)
        ensures
            r@ == requested_by(self.service@, self.caller@),
    {
        requested_by_body(self.service.as_str(), self.caller.as_str())
    }

    /// The file name of the icon.
    pub fn icon_name(&self) -> (r: String)
        ensures
            r@ == (match self.stage {
                Stage::Start => "faceauth-icon.svg"@,
                Stage::Success => "faceauth-icon-success.svg"@,
                Stage::Failure => "faceauth-icon-fail.svg"@,
            }),
    {
        match self.stage {
            Stage::Start => String::from_str("faceauth-icon.svg"),
            Stage::Success => String::from_str("faceauth-icon-success.svg"),
            Stage::Failure => String::from_str("faceauth-icon-fail.svg"),
        }
    }
}

/// Where an icon is kept for a user: in the runtime directory that the environment
/// names, else in the one that the system gives the user.
pub fn icon_path(runtime_dir: Option<String>, uid: u32, name: &str) -> (r: String)
    ensures
        r@ == (match runtime_dir {
            Some(dir) => dir@,
            None => "/run/user/"@ + decimal(uid as nat),
        }) + "/"@ + name@,
{
    match runtime_dir {
        Some(dir) => concat3(dir.as_str(), "/", name),
        None => {
            let mut path: String = String::from_str("/run/user/");
            path.append(decimal_text(uid as u64).as_str());
            path.append("/");
            path.append(name);
            path
        },
    }
}

// ---------------------------------------------------------------------------
// Calling the helper
// ---------------------------------------------------------------------------

/// The address of a user's session bus.
pub fn bus_address(uid: u32) -> (r: String)
    ensures
        r@ == "unix:path=/run/user/"@ + decimal(uid as nat) + "/bus"@,
{
    concat3("unix:path=/run/user/", decimal_text(uid as u64).as_str(), "/bus")
}

/// How long to show a notification about an attempt of so many seconds, in
/// milliseconds: a little longer than the attempt.
pub fn notice_timeout_ms(auth_timeout_secs: u32) -> (r: u32)
    requires
        (auth_timeout_secs + 3) * 1000 <= u32::MAX,
    ensures
        r == (auth_timeout_secs + 3) * 1000,
{
    (auth_timeout_secs + 3) * 1000
}

/// The arguments for a notification that an attempt has begun.
pub open spec fn start_command(
    uid: u32,
    service: Seq<char>,
    caller: Seq<char>,
    timeout_ms: u32,
) -> Seq<Seq<char>> {
    seq!["start"@, decimal(uid as nat), service, caller, decimal(timeout_ms as nat)]
}

/// The arguments for a notification that an attempt has begun.
pub fn start_args(uid: u32, service: &str, caller: &str, timeout_ms: u32) -> (r: Vec<String>)
    ensures
        r.deep_view() == start_command(uid, service@, caller@, timeout_ms),
{
    let mut args: Vec<String> = Vec::new();
    args.push(String::from_str("start"));
    args.push(decimal_text(uid as u64));
    args.push(String::from_str(service));
    args.push(String::from_str(caller));
    args.push(decimal_text(timeout_ms as u64));
    proof {
        assert(args.deep_view() =~= start_command(uid, service@, caller@, timeout_ms));
    }
    args
}

/// The arguments for the notification that a test has begun, which asks for nothing
/// but the service to be shown.
pub fn test_start_args(uid: u32) -> (r: Vec<String>)
    ensures
        r.deep_view() == seq!["start"@, decimal(uid as nat), "faceauth"@],
{
    let mut args: Vec<String> = Vec::new();
    args.push(String::from_str("start"));
    args.push(decimal_text(uid as u64));
    args.push(String::from_str("faceauth"));
    proof {
        assert(args.deep_view() =~= seq!["start"@, decimal(uid as nat), "faceauth"@]);
    }
    args
}

/// The arguments for a notification of a result.
pub open spec fn result_command(
    uid: u32,
    id: u32,
    success: bool,
    service: Seq<char>,
    caller: Option<Seq<char>>,
) -> Seq<Seq<char>> {
    seq![
        if success {
            "success"@
        } else {
            "failure"@
        },
        decimal(uid as nat),
        decimal(id as nat),
        service,
    ] + match caller {
        Some(c) => seq![c],
        None => Seq::empty(),
    }
}

/// The arguments for a notification of a result, which replaces notification `id`.
/// The caller is given where there is one to give.
pub fn result_args(uid: u32, id: u32, success: bool, service: &str, caller: &Option<String>) -> (r:
    Vec<String>)
    ensures
        r.deep_view() == result_command(uid, id, success, service@, caller.deep_view()),
{
    let mut args: Vec<String> = Vec::new();
    args.push(
        String::from_str(
            if success {
                "success"
            } else {
                "failure"
            },
        ),
    );
    args.push(decimal_text(uid as u64));
    args.push(decimal_text(id as u64));
    args.push(String::from_str(service));
    match caller {
        Some(c) => {
            args.push(c.clone());
        },
        None => {},
    }
    proof {
        assert(args.deep_view() =~= result_command(
            uid,
            id,
            success,
            service@,
            caller.deep_view(),
        ));
    }
    args
}

/// The number of the notification that the helper reports, if it reports one.
pub fn notification_id(output: &str) -> (r: Option<u32>)
    ensures
        r == parse_number(trim(output@)),
{
    number_in(trimmed(output).as_str())
}

proof fn lemma_stage_names()
    ensures
        "start"@ != "success"@,
        "start"@ != "failure"@,
        "success"@ != "failure"@,
{
    reveal_strlit("start");
    reveal_strlit("success");
    reveal_strlit("failure");
    assert("start"@.len() == 5 && "success"@.len() == 7 && "failure"@.len() == 7);
    assert("success"@[0] == 's' && "failure"@[0] == 'f');
}

/// The helper shows what it was asked to when an attempt begins.
pub proof fn law_start_args_arrive(
    program: Seq<char>,
    uid: u32,
    service: Seq<char>,
    caller: Seq<char>,
    timeout_ms: u32,
)
    ensures
        requested_notice(seq![program] + start_command(uid, service, caller, timeout_ms)) == Some(
            NoticeView { stage: Stage::Start, uid, replaces: None, service, caller, timeout_ms },
        ),
{
    law_parse_decimal(uid);
    law_parse_decimal(timeout_ms);
}

/// The helper shows the result that it was asked to, in place of the notification
/// that it was given.
pub proof fn law_result_args_arrive(
    program: Seq<char>,
    uid: u32,
    id: u32,
    success: bool,
    service: Seq<char>,
    caller: Option<Seq<char>>,
)
    ensures
        requested_notice(seq![program] + result_command(uid, id, success, service, caller)) == Some(
            NoticeView {
                stage: if success {
                    Stage::Success
                } else {
                    Stage::Failure
                },
                uid,
                replaces: Some(id),
                service,
                caller: match caller {
                    Some(c) => c,
                    None => Seq::empty(),
                },
                timeout_ms: 5000,
            },
        ),
{
    lemma_stage_names();
    law_parse_decimal(uid);
    law_parse_decimal(id);
    let args = seq![program] + result_command(uid, id, success, service, caller);
    assert(args[2] == decimal(uid as nat));
    assert(args[3] == decimal(id as nat));
    assert(args[4] == service);
}

/// A command line asks for a notification exactly if it names a stage and a user and, for
/// a result, the notification to replace. What is not given has a default: an unnamed
/// service, no caller, eight seconds.
pub proof fn law_what_a_command_asks(args: Seq<Seq<char>>)
    ensures
        args.len() < 3 ==> requested_notice(args) is None,
        args.len() >= 3 ==> (requested_notice(args) is Some <==> args[1] == "start"@ || ((args[1]
            == "success"@ || args[1] == "failure"@) && args.len() > 3 && parse_number(
            args[3],
        ) is Some)),
        requested_notice(args) matches Some(n) ==> (n.stage is Start <==> args[1] == "start"@) && (
        n.stage is Success <==> args[1] == "success"@) && (n.stage is Failure <==> args[1]
            == "failure"@) && (parse_number(args[2]) matches Some(uid) ==> n.uid == uid) && (
        parse_number(args[2]) is None ==> n.uid == 0),
        requested_notice(args) matches Some(n) ==> (n.stage is Start ==> n.replaces is None && (
        args.len() > 3 ==> n.service == args[3]) && (args.len() <= 3 ==> n.service == "unknown"@)
            && (args.len() > 4 ==> n.caller == args[4]) && (args.len() <= 4 ==> n.caller.len() == 0)
            && (args.len() <= 5 ==> n.timeout_ms == 8 * 1000) && (args.len() > 5 ==> (parse_number(
            args[5],
        ) matches Some(ms) ==> n.timeout_ms == ms) && (parse_number(args[5]) is None
            ==> n.timeout_ms == 8 * 1000))),
        requested_notice(args) matches Some(n) ==> (!(n.stage is Start) ==> n.replaces
            == parse_number(args[3]) && (args.len() > 4 ==> n.service == args[4]) && (args.len() <= 4
            ==> n.service == "unknown"@) && (args.len() > 5 ==> n.caller == args[5]) && (args.len()
            <= 5 ==> n.caller.len() == 0) && n.timeout_ms == 5 * 1000),
{
    lemma_stage_names();
}

/// The program that started a service is shown beside it exactly if it is known and has
/// another name.
pub proof fn law_requested_by(service: Seq<char>, caller: Seq<char>)
    ensures
        requested_by(service, caller).fields.len() == (if caller.len() > 0 && caller != service {
            2int
        } else {
            1
        }),
        requested_by(service, caller).fields[0] == ("{service}"@, service),
        caller.len() > 0 && caller != service ==> requested_by(service, caller).fields[1] == (
            "{caller}"@,
            caller,
        ),
{
}

/// A notification is told by everything it is made of.
pub proof fn law_notices_by_contents(a: Notice, b: Notice)
    ensures
        a@ == b@ ==> a.stage == b.stage && a.uid == b.uid && a.replaces == b.replaces && a.service@
            == b.service@ && a.caller@ == b.caller@ && a.timeout_ms == b.timeout_ms,
{
}

}
