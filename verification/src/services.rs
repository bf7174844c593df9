//! Which services may use face authentication: the lists of allowed and forbidden
//! services, one for everybody and one for each user.
//!
//! A list is a text file with one line for each service: its name behind a `+`
//! where face authentication is allowed, behind a `-` where it is not.

use vstd::prelude::*;
use vstd::string::*;

use crate::ipc::{ServiceEntry, ServiceView};
use crate::model::MODEL_DIR;
use crate::text::{
    after_first_line, char_is_whitespace, chars_of, concat2, contains, decimal, decimal_text,
    first_line, is_whitespace, law_decimal_digits, law_lines_append, law_parse_decimal, law_trim,
    lemma_lines_hold_no_newline, lemma_trim_end, lemma_trim_start, line_len, lines, occurs_at,
    same_text, split_lines, starts_with, string_of, trim, trim_end, trim_start, trimmed,
};

verus! {

// ---------------------------------------------------------------------------
// Lists
// ---------------------------------------------------------------------------

/// What a list says of a service, if it says anything.
pub open spec fn find(list: Seq<ServiceView>, name: Seq<char>) -> Option<bool>
    decreases list.len(),
{
    if list.len() == 0 {
        None
    } else if list[0].name == name {
        Some(list[0].allowed)
    } else {
        find(list.drop_first(), name)
    }
}

/// A list with what it says of one service changed, or added at its end.
pub open spec fn with_entry(list: Seq<ServiceView>, name: Seq<char>, allowed: bool) -> Seq<ServiceView>
    decreases list.len(),
{
    if list.len() == 0 {
        seq![ServiceView { name, allowed }]
    } else if list[0].name == name {
        seq![ServiceView { name, allowed }] + list.drop_first()
    } else {
        seq![list[0]] + with_entry(list.drop_first(), name, allowed)
    }
}

/// No service is listed twice.
pub open spec fn distinct(list: Seq<ServiceView>) -> bool {
    forall|i: int, j: int|
        0 <= i < j < list.len() ==> (#[trigger] list[i]).name != (#[trigger] list[j]).name
}

/// A list with what `changes` says, in turn.
pub open spec fn merged(list: Seq<ServiceView>, changes: Seq<ServiceView>) -> Seq<ServiceView>
    decreases changes.len(),
{
    if changes.len() == 0 {
        list
    } else {
        merged(with_entry(list, changes[0].name, changes[0].allowed), changes.drop_first())
    }
}

/// Face authentication is used for a service only if a list says so; what the
/// user's list says counts before what everybody's does.
pub open spec fn opted_in(
    defaults: Seq<ServiceView>,
    user: Seq<ServiceView>,
    name: Seq<char>,
) -> bool {
    find(merged(defaults, user), name) == Some(true)
}

/// A list says that face authentication is not to be used for a name; what the user's
/// list says counts before what everybody's does.
pub open spec fn opted_out(
    defaults: Seq<ServiceView>,
    user: Seq<ServiceView>,
    name: Seq<char>,
) -> bool {
    find(merged(defaults, user), name) == Some(false)
}

proof fn lemma_find_absent(list: Seq<ServiceView>, name: Seq<char>)
    ensures
        find(list, name) is None <==> forall|i: int|
            0 <= i < list.len() ==> (#[trigger] list[i]).name != name,
    decreases list.len(),
{
    if list.len() > 0 {
        let rest = list.drop_first();
        lemma_find_absent(rest, name);
        if list[0].name != name {
            if find(list, name) is None {
                assert forall|i: int| 0 <= i < list.len() implies (#[trigger] list[i]).name
                    != name by {
                    if i > 0 {
                        assert(rest[i - 1] == list[i]);
                    }
                }
            } else {
                let i = choose|i: int| 0 <= i < rest.len() && (#[trigger] rest[i]).name == name;
                assert(list[i + 1] == rest[i]);
            }
        }
    }
}

/// After a change, a list says of the service what it was changed to, and of every
/// other what it said before.
pub proof fn law_set_then_find(
    list: Seq<ServiceView>,
    name: Seq<char>,
    allowed: bool,
    other: Seq<char>,
)
    ensures
        find(with_entry(list, name, allowed), other) == if other == name {
            Some(allowed)
        } else {
            find(list, other)
        },
    decreases list.len(),
{
    let r = with_entry(list, name, allowed);
    if list.len() == 0 {
        assert(r.drop_first() =~= Seq::empty());
        assert(find(r.drop_first(), other) is None);
    } else if list[0].name == name {
        assert(r.drop_first() =~= list.drop_first());
    } else {
        law_set_then_find(list.drop_first(), name, allowed, other);
        assert(r.drop_first() =~= with_entry(list.drop_first(), name, allowed));
    }
}

proof fn lemma_set_names(list: Seq<ServiceView>, name: Seq<char>, allowed: bool)
    ensures
        find(list, name) is Some ==> with_entry(list, name, allowed).len() == list.len() && forall|i: int|
            0 <= i < list.len() ==> (#[trigger] with_entry(list, name, allowed)[i]).name == list[i].name,
        find(list, name) is None ==> with_entry(list, name, allowed) == list.push(
            ServiceView { name, allowed },
        ),
    decreases list.len(),
{
    let r = with_entry(list, name, allowed);
    if list.len() == 0 {
        assert(r =~= list.push(ServiceView { name, allowed }));
    } else if list[0].name != name {
        let rest = list.drop_first();
        lemma_set_names(rest, name, allowed);
        if find(list, name) is None {
            assert(r =~= list.push(ServiceView { name, allowed }));
        } else {
            assert forall|i: int| 0 <= i < list.len() implies (#[trigger] r[i]).name
                == list[i].name by {
                if i > 0 {
                    assert(with_entry(rest, name, allowed)[i - 1].name == rest[i - 1].name);
                }
            }
        }
    }
}

/// A change lists no service twice if none was listed twice before.
pub proof fn law_set_keeps_distinct(list: Seq<ServiceView>, name: Seq<char>, allowed: bool)
    requires
        distinct(list),
    ensures
        distinct(with_entry(list, name, allowed)),
{
    let r = with_entry(list, name, allowed);
    lemma_set_names(list, name, allowed);
    lemma_find_absent(list, name);
    assert forall|i: int, j: int| 0 <= i < j < r.len() implies (#[trigger] r[i]).name != (
    #[trigger] r[j]).name by {
        if find(list, name) is Some {
            assert(r[i].name == list[i].name);
            assert(r[j].name == list[j].name);
        } else if j < list.len() {
            assert(list[i].name != list[j].name);
        }
    }
}

/// The user's list decides where it speaks of a service; everybody's list decides
/// elsewhere.
pub proof fn law_user_overrides_defaults(
    defaults: Seq<ServiceView>,
    user: Seq<ServiceView>,
    name: Seq<char>,
)
    requires
        distinct(user),
    ensures
        find(merged(defaults, user), name) == match find(user, name) {
            Some(allowed) => Some(allowed),
            None => find(defaults, name),
        },
    decreases user.len(),
{
    if user.len() > 0 {
        let rest = user.drop_first();
        let first = user[0];
        let next = with_entry(defaults, first.name, first.allowed);
        assert forall|i: int, j: int| 0 <= i < j < rest.len() implies (#[trigger] rest[i]).name
            != (#[trigger] rest[j]).name by {
            assert(user[i + 1].name != user[j + 1].name);
        }
        law_user_overrides_defaults(next, rest, name);
        law_set_then_find(defaults, first.name, first.allowed, name);
        if first.name == name {
            assert forall|i: int| 0 <= i < rest.len() implies (#[trigger] rest[i]).name
                != name by {
                assert(user[0].name != user[i + 1].name);
            }
            lemma_find_absent(rest, name);
        }
    }
}

/// A copy of `entry`.
fn copy_entry(entry: &ServiceEntry) -> (r: ServiceEntry)
    ensures
        r == *entry,
{
    ServiceEntry { name: entry.name.clone(), allowed: entry.allowed }
}

/// Changes what `list` says of one service, or adds it at the end.
pub fn set_entry(list: &mut Vec<ServiceEntry>, name: &str, allowed: bool)
    ensures
        final(list).deep_view() == with_entry(old(list).deep_view(), name@, allowed),
{
    let ghost all = list.deep_view();
    let mut i: usize = 0;
    proof {
        assert(all.skip(0) =~= all);
        assert(all.take(0) =~= Seq::empty());
        assert(all.take(0) + with_entry(all.skip(0), name@, allowed) =~= with_entry(all, name@, allowed));
    }
    while i < list.len()
        invariant
            i <= list.len(),
            list@ == old(list)@,
            all == list.deep_view(),
            with_entry(all, name@, allowed) == all.take(i as int) + with_entry(
                all.skip(i as int),
                name@,
                allowed,
            ),
        decreases list.len() - i,
    {
        let ghost rest = all.skip(i as int);
        proof {
            assert(rest[0] == list@[i as int]@);
            assert(rest.drop_first() =~= all.skip(i + 1));
        }
        if same_text(list[i].name.as_str(), name) {
            list.set(i, ServiceEntry { name: String::from_str(name), allowed });
            proof {
                let e = ServiceView { name: name@, allowed };
                assert(list.deep_view() =~= all.take(i as int) + (seq![e] + rest.drop_first()));
            }
            return;
        }
        proof {
            let inner = with_entry(all.skip(i + 1), name@, allowed);
            assert(all.take(i as int) + (seq![rest[0]] + inner) =~= all.take(i + 1) + inner);
        }
        i = i + 1;
    }
    list.push(ServiceEntry { name: String::from_str(name), allowed });
    proof {
        let e = ServiceView { name: name@, allowed };
        assert(all.skip(i as int) =~= Seq::empty());
        assert(list.deep_view() =~= all.take(i as int) + seq![e]);
    }
}

/// What `list` says of a service, if it says anything.
pub fn find_entry(list: &Vec<ServiceEntry>, name: &str) -> (r: Option<bool>)
    ensures
        r == find(list.deep_view(), name@),
{
    let ghost all = list.deep_view();
    let mut i: usize = 0;
    proof {
        assert(all.skip(0) =~= all);
    }
    while i < list.len()
        invariant
            i <= list.len(),
            all == list.deep_view(),
            find(all, name@) == find(all.skip(i as int), name@),
        decreases list.len() - i,
    {
        proof {
            assert(all.skip(i as int)[0] == list@[i as int]@);
            assert(all.skip(i as int).drop_first() =~= all.skip(i + 1));
        }
        if same_text(list[i].name.as_str(), name) {
            return Some(list[i].allowed);
        }
        i = i + 1;
    }
    None
}

/// Everybody's list with what the user's list says.
pub fn merge_services(defaults: &Vec<ServiceEntry>, user: &Vec<ServiceEntry>) -> (r: Vec<
    ServiceEntry,
>)
    ensures
        r.deep_view() == merged(defaults.deep_view(), user.deep_view()),
{
    let ghost base = defaults.deep_view();
    let ghost changes = user.deep_view();
    let mut out: Vec<ServiceEntry> = Vec::new();
    let mut i: usize = 0;
    proof {
        assert(out.deep_view() =~= base.take(0));
    }
    while i < defaults.len()
        invariant
            i <= defaults.len(),
            base == defaults.deep_view(),
            out.deep_view() == base.take(i as int),
        decreases defaults.len() - i,
    {
        let ghost before = out.deep_view();
        out.push(copy_entry(&defaults[i]));
        proof {
            assert(out.deep_view() =~= before.push(base[i as int]));
            assert(base.take(i + 1) =~= before.push(base[i as int]));
        }
        i = i + 1;
    }
    proof {
        assert(out.deep_view() =~= base);
        assert(changes.skip(0) =~= changes);
    }
    let mut j: usize = 0;
    while j < user.len()
        invariant
            j <= user.len(),
            changes == user.deep_view(),
            merged(base, changes) == merged(out.deep_view(), changes.skip(j as int)),
        decreases user.len() - j,
    {
        proof {
            assert(changes.skip(j as int)[0] == user@[j as int]@);
            assert(changes.skip(j as int).drop_first() =~= changes.skip(j + 1));
        }
        set_entry(&mut out, user[j].name.as_str(), user[j].allowed);
        j = j + 1;
    }
    proof {
        assert(changes.skip(j as int) =~= Seq::empty());
    }
    out
}

// ---------------------------------------------------------------------------
// Files
// ---------------------------------------------------------------------------

/// The file with everybody's list.
pub open spec fn defaults_path_text() -> Seq<char> {
    MODEL_DIR@ + "/defaults.opt"@
}

/// The file with a user's list.
pub open spec fn opt_path_text(uid: u32) -> Seq<char> {
    MODEL_DIR@ + "/"@ + decimal(uid as nat) + ".opt"@
}

/// The file with everybody's list.
pub fn defaults_path() -> (r: String)
    ensures
        r@ == defaults_path_text(),
{
    concat2(MODEL_DIR, "/defaults.opt")
}

/// The file with a user's list.
pub fn opt_path(uid: u32) -> (r: String)
    ensures
        r@ == opt_path_text(uid),
{
    let mut path: String = concat2(MODEL_DIR, "/");
    path.append(decimal_text(uid as u64).as_str());
    path.append(".opt");
    path
}

/// What a line of a list says, if it says anything.
pub open spec fn parse_line(line: Seq<char>) -> Option<ServiceView> {
    let t = trim(line);
    if t.len() > 1 && (t[0] == '+' || t[0] == '-') {
        Some(ServiceView { name: t.skip(1), allowed: t[0] == '+' })
    } else {
        None
    }
}

/// A list with what `texts` say, line after line.
pub open spec fn apply_lines(list: Seq<ServiceView>, texts: Seq<Seq<char>>) -> Seq<ServiceView>
    decreases texts.len(),
{
    if texts.len() == 0 {
        list
    } else {
        let next = match parse_line(texts[0]) {
            Some(e) => with_entry(list, e.name, e.allowed),
            None => list,
        };
        apply_lines(next, texts.drop_first())
    }
}

/// The list in the text of a file. Of two lines on one service the later counts.
pub open spec fn parse_list(text: Seq<char>) -> Seq<ServiceView> {
    apply_lines(Seq::empty(), lines(text))
}

/// The line for one service.
pub open spec fn entry_text(e: ServiceView) -> Seq<char> {
    seq![
        if e.allowed {
            '+'
        } else {
            '-'
        },
    ] + e.name + "\n"@
}

/// The text of the file for a list.
pub open spec fn list_text(list: Seq<ServiceView>) -> Seq<char>
    decreases list.len(),
{
    if list.len() == 0 {
        Seq::empty()
    } else {
        entry_text(list[0]) + list_text(list.drop_first())
    }
}

/// The name can be told from a line with it: it is not empty, holds no line feed,
/// and does not end in white space.
pub open spec fn storable(name: Seq<char>) -> bool {
    &&& name.len() > 0
    &&& !is_whitespace(name.last())
    &&& forall|i: int| 0 <= i < name.len() ==> #[trigger] name[i] != '\n'
}

/// A name that can be that of a service: one that can be told from a line with it, and
/// that, as the name of a file, leads into no other directory.
pub open spec fn valid_name(name: Seq<char>) -> bool {
    storable(name) && forall|i: int| 0 <= i < name.len() ==> #[trigger] name[i] != '/'
}

/// Whether `c` does not occur in `name`.
fn lacks(name: &Vec<char>, c: char) -> (r: bool)
    ensures
        r == forall|i: int| 0 <= i < name@.len() ==> #[trigger] name@[i] != c,
{
    let mut i: usize = 0;
    while i < name.len()
        invariant
            i <= name.len(),
            forall|j: int| 0 <= j < i ==> #[trigger] name@[j] != c,
        decreases name.len() - i,
    {
        if name[i] == c {
            proof {
                assert(name@[i as int] == c);
            }
            return false;
        }
        i = i + 1;
    }
    true
}

/// Whether `name` can be told from a line with it.
pub fn is_storable(name: &str) -> (r: bool)
    ensures
        r == storable(name@),
{
    let v: Vec<char> = chars_of(name);
    v.len() > 0 && !char_is_whitespace(v[v.len() - 1]) && lacks(&v, '\n')
}

/// Whether `name` can be that of a service.
pub fn is_valid_name(name: &str) -> (r: bool)
    ensures
        r == valid_name(name@),
{
    is_storable(name) && lacks(&chars_of(name), '/')
}

/// The list in the text of a file; a file that is not there holds nothing.
pub fn parse_opts(text: &Option<String>) -> (r: Vec<ServiceEntry>)
    ensures
        r.deep_view() == match text {
            Some(t) => parse_list(t@),
            None => Seq::empty(),
        },
{
    let mut out: Vec<ServiceEntry> = Vec::new();
    proof {
        assert(out.deep_view() =~= Seq::empty());
    }
    match text {
        None => out,
        Some(t) => {
            let texts: Vec<String> = split_lines(t.as_str());
            let ghost all = texts.deep_view();
            let mut i: usize = 0;
            proof {
                assert(all.skip(0) =~= all);
            }
            while i < texts.len()
                invariant
                    i <= texts.len(),
                    all == texts.deep_view(),
                    apply_lines(Seq::empty(), all) == apply_lines(
                        out.deep_view(),
                        all.skip(i as int),
                    ),
                decreases texts.len() - i,
            {
                proof {
                    assert(all.skip(i as int)[0] == texts@[i as int]@);
                    assert(all.skip(i as int).drop_first() =~= all.skip(i + 1));
                }
                let line: String = trimmed(texts[i].as_str());
                let v: Vec<char> = chars_of(line.as_str());
                if v.len() > 1 && (v[0] == '+' || v[0] == '-') {
                    let name: String = string_of(&v, 1, v.len());
                    proof {
                        assert(name@ =~= v@.skip(1));
                    }
                    set_entry(&mut out, name.as_str(), v[0] == '+');
                }
                i = i + 1;
            }
            proof {
                assert(all.skip(i as int) =~= Seq::empty());
            }
            out
        },
    }
}

/// The text of the file for a list.
pub fn opts_text(list: &Vec<ServiceEntry>) -> (r: String)
    ensures
        r@ == list_text(list.deep_view()),
{
    let ghost all = list.deep_view();
    let mut out: String = String::new();
    let mut i: usize = 0;
    proof {
        assert(all.skip(0) =~= all);
        assert(out@ + list_text(all.skip(0)) =~= list_text(all));
    }
    while i < list.len()
        invariant
            i <= list.len(),
            all == list.deep_view(),
            list_text(all) == out@ + list_text(all.skip(i as int)),
        decreases list.len() - i,
    {
        let ghost before = out@;
        let ghost rest = all.skip(i as int);
        proof {
            assert(rest[0] == list@[i as int]@);
            assert(rest.drop_first() =~= all.skip(i + 1));
        }
        out.push(
            if list[i].allowed {
                '+'
            } else {
                '-'
            },
        );
        out.append(list[i].name.as_str());
        out.append("\n");
        proof {
            assert(out@ =~= before + entry_text(rest[0]));
            let tail = list_text(all.skip(i + 1));
            assert(before + (entry_text(rest[0]) + tail) =~= out@ + tail);
        }
        i = i + 1;
    }
    proof {
        assert(all.skip(i as int) =~= Seq::empty());
        assert(out@ + list_text(all.skip(i as int)) =~= out@);
    }
    out
}

proof fn lemma_apply_lines_distinct(list: Seq<ServiceView>, texts: Seq<Seq<char>>)
    requires
        distinct(list),
    ensures
        distinct(apply_lines(list, texts)),
    decreases texts.len(),
{
    if texts.len() > 0 {
        match parse_line(texts[0]) {
            Some(e) => {
                law_set_keeps_distinct(list, e.name, e.allowed);
                lemma_apply_lines_distinct(with_entry(list, e.name, e.allowed), texts.drop_first());
            },
            None => {
                lemma_apply_lines_distinct(list, texts.drop_first());
            },
        }
    }
}

/// No service is listed twice in a list that was read from a file.
pub proof fn law_parsed_list_distinct(text: Seq<char>)
    ensures
        distinct(parse_list(text)),
{
    lemma_apply_lines_distinct(Seq::empty(), lines(text));
}

proof fn lemma_line_len_is(s: Seq<char>, n: int)
    requires
        0 <= n < s.len(),
        s[n] == '\n',
        forall|i: int| 0 <= i < n ==> #[trigger] s[i] != '\n',
    ensures
        line_len(s) == n,
    decreases n,
{
    if n > 0 {
        let t = s.drop_first();
        assert forall|i: int| 0 <= i < n - 1 implies #[trigger] t[i] != '\n' by {
            assert(s[i + 1] != '\n');
        }
        lemma_line_len_is(t, n - 1);
    }
}

/// Every name in the list can be told from a line with it.
pub open spec fn all_storable(list: Seq<ServiceView>) -> bool {
    forall|i: int| 0 <= i < list.len() ==> storable(#[trigger] list[i].name)
}

proof fn lemma_entry_line(e: ServiceView, tail: Seq<char>)
    requires
        storable(e.name),
    ensures
        ({
            let s = entry_text(e) + tail;
            &&& lines(s) == seq![first_line(s)] + lines(tail)
            &&& parse_line(first_line(s)) == Some(e)
        }),
{
    reveal_strlit("\n");
    let s = entry_text(e) + tail;
    let n = 1 + e.name.len();
    let line = s.take(n as int);
    assert(s[n as int] == '\n');
    assert forall|i: int| 0 <= i < n implies #[trigger] s[i] != '\n' by {
        if i > 0 {
            assert(s[i] == e.name[i - 1]);
        }
    }
    lemma_line_len_is(s, n as int);
    assert(line.last() == e.name[n - 2]);
    assert(first_line(s) == line);
    assert(after_first_line(s) =~= tail);
    assert(!is_whitespace(line[0]));
    assert(!is_whitespace(line.last()));
    assert(trim_start(line) == line);
    assert(trim_end(line) == line);
    assert(line.skip(1) =~= e.name);
}

proof fn lemma_list_text_parses(list: Seq<ServiceView>, more: Seq<ServiceView>)
    requires
        distinct(list + more),
        all_storable(more),
    ensures
        apply_lines(list, lines(list_text(more))) == list + more,
    decreases more.len(),
{
    if more.len() == 0 {
        assert(list + more =~= list);
    } else {
        let e = more[0];
        let rest = more.drop_first();
        let all = list + more;
        assert(storable(more[0].name));
        lemma_entry_line(e, list_text(rest));
        let texts = lines(list_text(more));
        assert(texts.drop_first() =~= lines(list_text(rest)));
        assert forall|i: int| 0 <= i < list.len() implies (#[trigger] list[i]).name != e.name by {
            assert(all[i].name != all[list.len() as int].name);
        }
        lemma_find_absent(list, e.name);
        lemma_set_names(list, e.name, e.allowed);
        let next = list.push(e);
        assert(next + rest =~= all);
        assert forall|i: int| 0 <= i < rest.len() implies storable(#[trigger] rest[i].name) by {
            assert(storable(more[i + 1].name));
        }
        lemma_list_text_parses(next, rest);
    }
}

/// A list is read back from its file as it was written.
pub proof fn law_list_roundtrip(list: Seq<ServiceView>)
    requires
        distinct(list),
        all_storable(list),
    ensures
        parse_list(list_text(list)) == list,
{
    assert(Seq::<ServiceView>::empty() + list =~= list);
    lemma_list_text_parses(Seq::empty(), list);
}

proof fn lemma_set_storable(list: Seq<ServiceView>, name: Seq<char>, allowed: bool)
    requires
        all_storable(list),
        storable(name),
    ensures
        all_storable(with_entry(list, name, allowed)),
{
    let r = with_entry(list, name, allowed);
    lemma_set_names(list, name, allowed);
    assert forall|i: int| 0 <= i < r.len() implies storable(#[trigger] r[i].name) by {
        if i < list.len() {
            assert(r[i].name == list[i].name);
            assert(storable(list[i].name));
        }
    }
}

proof fn lemma_parse_line_storable(line: Seq<char>)
    requires
        forall|i: int| 0 <= i < line.len() ==> #[trigger] line[i] != '\n',
    ensures
        parse_line(line) matches Some(e) ==> storable(e.name),
{
    let s = trim_start(line);
    let t = trim(line);
    lemma_trim_start(line);
    lemma_trim_end(s);
    if let Some(e) = parse_line(line) {
        assert(e.name.last() == t.last());
        assert forall|i: int| 0 <= i < e.name.len() implies #[trigger] e.name[i] != '\n' by {
            assert(e.name[i] == s[i + 1]);
            assert(s[i + 1] == line[line.len() - s.len() + i + 1]);
        }
    }
}

proof fn lemma_apply_lines_storable(list: Seq<ServiceView>, texts: Seq<Seq<char>>)
    requires
        all_storable(list),
        forall|i: int, k: int|
            0 <= i < texts.len() && 0 <= k < texts[i].len() ==> #[trigger] texts[i][k] != '\n',
    ensures
        all_storable(apply_lines(list, texts)),
    decreases texts.len(),
{
    if texts.len() > 0 {
        let rest = texts.drop_first();
        assert forall|i: int| 0 <= i < texts[0].len() implies #[trigger] texts[0][i] != '\n' by {}
        lemma_parse_line_storable(texts[0]);
        assert forall|i: int, k: int|
            0 <= i < rest.len() && 0 <= k < rest[i].len() implies #[trigger] rest[i][k] != '\n' by {
            assert(texts[i + 1][k] != '\n');
        }
        match parse_line(texts[0]) {
            Some(e) => {
                lemma_set_storable(list, e.name, e.allowed);
                lemma_apply_lines_storable(with_entry(list, e.name, e.allowed), rest);
            },
            None => {
                lemma_apply_lines_storable(list, rest);
            },
        }
    }
}

/// A change to a list that was read from a file is there when the file is read
/// again, and so is all the rest of the list.
pub proof fn law_change_is_read_back(text: Seq<char>, name: Seq<char>, allowed: bool)
    requires
        storable(name),
    ensures
        ({
            let changed = with_entry(parse_list(text), name, allowed);
            parse_list(list_text(changed)) == changed
        }),
{
    let list = parse_list(text);
    lemma_lines_hold_no_newline(text);
    lemma_apply_lines_storable(Seq::empty(), lines(text));
    law_parsed_list_distinct(text);
    lemma_set_storable(list, name, allowed);
    law_set_keeps_distinct(list, name, allowed);
    law_list_roundtrip(with_entry(list, name, allowed));
}

// ---------------------------------------------------------------------------
// Laws of lists
// ---------------------------------------------------------------------------

/// What a list says of a service is what its first entry for it says, wherever that
/// stands; it says nothing only without such an entry.
pub proof fn law_find(list: Seq<ServiceView>, k: int, name: Seq<char>)
    ensures
        0 <= k < list.len() && list[k].name == name && (forall|j: int|
            0 <= j < k ==> (#[trigger] list[j]).name != name) ==> find(list, name) == Some(
            list[k].allowed,
        ),
        find(list, name) is None <==> forall|j: int|
            0 <= j < list.len() ==> (#[trigger] list[j]).name != name,
    decreases list.len(),
{
    lemma_find_absent(list, name);
    if list.len() > 0 {
        let rest = list.drop_first();
        law_find(rest, k - 1, name);
        if 0 <= k < list.len() && list[k].name == name && (forall|j: int|
            0 <= j < k ==> (#[trigger] list[j]).name != name) && k > 0 {
            assert(list[0].name != name);
            assert(rest[k - 1] == list[k]);
            assert forall|j: int| 0 <= j < k - 1 implies (#[trigger] rest[j]).name != name by {
                assert(list[j + 1].name != name);
            }
        }
    }
}

/// A change keeps every service in its place; a service that was not listed goes to the
/// end.
pub proof fn law_change_keeps_places(list: Seq<ServiceView>, name: Seq<char>, allowed: bool)
    ensures
        find(list, name) is Some ==> with_entry(list, name, allowed).len() == list.len() && forall|
            i: int,
        |
            0 <= i < list.len() ==> (#[trigger] with_entry(list, name, allowed)[i]).name
                == list[i].name,
        find(list, name) is None ==> with_entry(list, name, allowed) == list.push(
            ServiceView { name, allowed },
        ),
        forall|i: int|
            0 <= i < list.len() && list[i].name != name ==> #[trigger] with_entry(
                list,
                name,
                allowed,
            )[i] == list[i],
    decreases list.len(),
{
    lemma_set_names(list, name, allowed);
    let r = with_entry(list, name, allowed);
    if list.len() > 0 {
        let rest = list.drop_first();
        law_change_keeps_places(rest, name, allowed);
        assert forall|i: int| 0 <= i < list.len() && list[i].name != name implies #[trigger] r[i]
            == list[i] by {
            if i > 0 {
                if list[0].name == name {
                    assert(r[i] == rest[i - 1]);
                } else {
                    assert(rest[i - 1] == list[i]);
                    assert(r[i] == with_entry(rest, name, allowed)[i - 1]);
                }
            }
        }
    }
}

/// Face authentication is used exactly if the user's list allows it, or is silent and
/// everybody's allows it; it is opted out of exactly if the user's list forbids it, or is
/// silent and everybody's forbids it.
pub proof fn law_who_decides(defaults: Seq<ServiceView>, user: Seq<ServiceView>, name: Seq<char>)
    requires
        distinct(user),
    ensures
        opted_in(defaults, user, name) <==> find(user, name) == Some(true) || (find(user, name) is None
            && find(defaults, name) == Some(true)),
        opted_out(defaults, user, name) <==> find(user, name) == Some(false) || (find(
            user,
            name,
        ) is None && find(defaults, name) == Some(false)),
        find(merged(defaults, user), name) is None <==> find(user, name) is None && find(
            defaults,
            name,
        ) is None,
{
    law_user_overrides_defaults(defaults, user, name);
}

/// A line says what the sign at its front says, of the service behind it; white space
/// around does not count. A line without sign or name says nothing.
pub proof fn law_line(before: Seq<char>, name: Seq<char>, after: Seq<char>, line: Seq<char>)
    requires
        forall|i: int| 0 <= i < before.len() ==> is_whitespace(#[trigger] before[i]),
        forall|i: int| 0 <= i < after.len() ==> is_whitespace(#[trigger] after[i]),
        name.len() > 0,
        !is_whitespace(name.last()),
    ensures
        parse_line(before + (seq!['+'] + name) + after) == Some(
            ServiceView { name, allowed: true },
        ),
        parse_line(before + (seq!['-'] + name) + after) == Some(
            ServiceView { name, allowed: false },
        ),
        parse_line(line) is Some ==> trim(line) == seq![
            if parse_line(line)->0.allowed {
                '+'
            } else {
                '-'
            },
        ] + parse_line(line)->0.name,
{
    let plus = seq!['+'] + name;
    let minus = seq!['-'] + name;
    assert(plus.last() == name.last() && minus.last() == name.last());
    law_trim(before, plus, after);
    law_trim(before, minus, after);
    assert(plus.skip(1) =~= name);
    assert(minus.skip(1) =~= name);
    if let Some(e) = parse_line(line) {
        let t = trim(line);
        assert(t =~= seq![t[0]] + t.skip(1));
    }
}

proof fn lemma_apply_lines_append(list: Seq<ServiceView>, a: Seq<Seq<char>>, b: Seq<Seq<char>>)
    ensures
        apply_lines(list, a + b) == apply_lines(apply_lines(list, a), b),
    decreases a.len(),
{
    if a.len() == 0 {
        assert(a + b =~= b);
    } else {
        assert((a + b).drop_first() =~= a.drop_first() + b);
        let next = match parse_line(a[0]) {
            Some(e) => with_entry(list, e.name, e.allowed),
            None => list,
        };
        lemma_apply_lines_append(next, a.drop_first(), b);
    }
}

/// The last line on a service counts, however many lines a file has; a line on one
/// service changes nothing for another.
pub proof fn law_last_line_counts(text: Seq<char>, name: Seq<char>, allowed: bool, other: Seq<char>)
    requires
        text.len() == 0 || text.last() == '\n',
        storable(name),
    ensures
        ({
            let sign = if allowed {
                '+'
            } else {
                '-'
            };
            let longer = text + (seq![sign] + name + seq!['\n']);
            &&& find(parse_list(longer), name) == Some(allowed)
            &&& other != name ==> find(parse_list(longer), other) == find(parse_list(text), other)
        }),
        find(parse_list(Seq::empty()), name) is None,
{
    reveal_strlit("\n");
    let e = ServiceView { name, allowed };
    let none = Seq::<char>::empty();
    let line = entry_text(e);
    let sign = if allowed {
        '+'
    } else {
        '-'
    };
    assert(line =~= seq![sign] + name + seq!['\n']);
    law_lines_append(text, line);
    lemma_entry_line(e, none);
    assert(line + none =~= line);
    assert(lines(none) =~= Seq::empty());
    assert(lines(line) =~= seq![first_line(line)]);
    lemma_apply_lines_append(Seq::empty(), lines(text), lines(line));
    let before = parse_list(text);
    let one = seq![first_line(line)];
    assert(one.drop_first() =~= Seq::empty());
    assert(apply_lines(before, one) == apply_lines(
        with_entry(before, name, allowed),
        one.drop_first(),
    ));
    assert(apply_lines(before, one) == with_entry(before, name, allowed));
    law_set_then_find(before, name, allowed, name);
    law_set_then_find(before, name, allowed, other);
    assert(parse_list(none) =~= Seq::empty());
}

/// A name can be put into a list exactly if it is read back from there; it can be that
/// of a service if, besides, no slash stands in it.
pub proof fn law_storable_is_read_back(name: Seq<char>, allowed: bool)
    ensures
        storable(name) <==> parse_list(list_text(seq![ServiceView { name, allowed }])) == seq![
            ServiceView { name, allowed },
        ],
        valid_name(name) <==> storable(name) && !contains(name, seq!['/']),
{
    let e = ServiceView { name, allowed };
    let list = seq![e];
    if storable(name) {
        law_list_roundtrip(list);
    }
    if parse_list(list_text(list)) == list {
        lemma_lines_hold_no_newline(list_text(list));
        lemma_apply_lines_storable(Seq::empty(), lines(list_text(list)));
        assert(storable(list[0].name));
    }
    if contains(name, seq!['/']) {
        let i = choose|i: int| occurs_at(name, seq!['/'], i);
        assert(name.subrange(i, i + 1)[0] == '/');
        assert(name[i] == '/');
    } else {
        assert forall|i: int| 0 <= i < name.len() implies #[trigger] name[i] != '/' by {
            if name[i] == '/' {
                assert(name.subrange(i, i + 1) =~= seq!['/']);
                assert(occurs_at(name, seq!['/'], i));
            }
        }
    }
}

/// A file holds one line for each entry, in order: a sign, the name and a line feed.
pub proof fn law_list_text(a: Seq<ServiceView>, b: Seq<ServiceView>, name: Seq<char>)
    ensures
        list_text(a + b) == list_text(a) + list_text(b),
        list_text(Seq::empty()).len() == 0,
        list_text(seq![ServiceView { name, allowed: true }]) == seq!['+'] + name + seq!['\n'],
        list_text(seq![ServiceView { name, allowed: false }]) == seq!['-'] + name + seq!['\n'],
    decreases a.len(),
{
    reveal_strlit("\n");
    let yes = seq![ServiceView { name, allowed: true }];
    let no = seq![ServiceView { name, allowed: false }];
    assert(yes.drop_first() =~= Seq::empty());
    assert(no.drop_first() =~= Seq::empty());
    assert(list_text(Seq::<ServiceView>::empty()) =~= Seq::empty());
    assert(list_text(yes.drop_first()) =~= Seq::<char>::empty());
    assert(list_text(no.drop_first()) =~= Seq::<char>::empty());
    assert(list_text(yes) =~= seq!['+'] + name + seq!['\n']);
    assert(list_text(no) =~= seq!['-'] + name + seq!['\n']);
    if a.len() > 0 {
        law_list_text(a.drop_first(), b, name);
        assert((a + b).drop_first() =~= a.drop_first() + b);
        assert(list_text(a + b) =~= list_text(a) + list_text(b));
    } else {
        assert(a + b =~= b);
        assert(list_text(a) + list_text(b) =~= list_text(b));
    }
}

/// Every user has a list of its own, which is not everybody's, and all lie in one
/// directory.
pub proof fn law_list_paths_differ(a: u32, b: u32)
    ensures
        opt_path_text(a) == opt_path_text(b) ==> a == b,
        opt_path_text(a) != defaults_path_text(),
        starts_with(opt_path_text(a), "/etc/security/faceauth/"@),
        starts_with(defaults_path_text(), "/etc/security/faceauth/"@),
{
    reveal_strlit("/etc/security/faceauth");
    reveal_strlit("/etc/security/faceauth/");
    reveal_strlit("/");
    reveal_strlit("/defaults.opt");
    reveal_strlit(".opt");
    let front = MODEL_DIR@ + "/"@;
    let from = front.len() as int;
    let to = opt_path_text(a).len() - ".opt"@.len();
    assert(opt_path_text(a).subrange(from, to) =~= decimal(a as nat));
    if opt_path_text(a) == opt_path_text(b) {
        assert(opt_path_text(b).subrange(from, to) =~= decimal(b as nat));
        law_parse_decimal(a);
        law_parse_decimal(b);
    }
    law_decimal_digits(a as nat);
    assert(opt_path_text(a)[from] == decimal(a as nat)[0]);
    assert(defaults_path_text()[from] == 'd');
    assert(opt_path_text(a).subrange(0, from) =~= "/etc/security/faceauth/"@);
    assert(defaults_path_text().subrange(0, from) =~= "/etc/security/faceauth/"@);
}

}
