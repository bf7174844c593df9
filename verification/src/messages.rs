//! What the programs say. A message is an English text with placeholders; a program
//! looks it up in the user's language and has the placeholders filled in there.

use vstd::prelude::*;
use vstd::string::*;

use crate::text::{contains, law_replace_nothing, replace, replaced};

verus! {

/// A placeholder in a message, and what takes its place.
#[derive(Debug)]
pub struct Field {
    pub placeholder: &'static str,
    pub value: String,
}

impl View for Field {
    type V = (Seq<char>, Seq<char>);

    open spec fn view(&self) -> (Seq<char>, Seq<char>) {
        (self.placeholder@, self.value@)
    }
}

impl DeepView for Field {
    type V = (Seq<char>, Seq<char>);

    open spec fn deep_view(&self) -> (Seq<char>, Seq<char>) {
        self@
    }
}

/// Something to say: the English text, with placeholders, and what takes their
/// place.
#[derive(Debug)]
pub struct Message {
    pub template: &'static str,
    pub fields: Vec<Field>,
}

/// A [`Message`] as a mathematical value.
#[verifier::ext_equal]
pub struct MessageView {
    pub template: Seq<char>,
    pub fields: Seq<(Seq<char>, Seq<char>)>,
}

impl View for Message {
    type V = MessageView;

    open spec fn view(&self) -> MessageView {
        MessageView { template: self.template@, fields: self.fields.deep_view() }
    }
}

/// `text` with its placeholders replaced, one after another.
pub open spec fn filled(text: Seq<char>, fields: Seq<(Seq<char>, Seq<char>)>) -> Seq<char>
    decreases fields.len(),
{
    if fields.len() == 0 {
        text
    } else {
        filled(replace(text, fields[0].0, fields[0].1), fields.drop_first())
    }
}

/// A message without placeholders.
pub open spec fn say(template: Seq<char>) -> MessageView {
    MessageView { template, fields: Seq::empty() }
}

/// A message with one placeholder.
pub open spec fn say1(template: Seq<char>, p: Seq<char>, v: Seq<char>) -> MessageView {
    MessageView { template, fields: seq![(p, v)] }
}

/// A message with two placeholders.
pub open spec fn say2(
    template: Seq<char>,
    p: Seq<char>,
    v: Seq<char>,
    q: Seq<char>,
    w: Seq<char>,
) -> MessageView {
    MessageView { template, fields: seq![(p, v), (q, w)] }
}

/// A message with three placeholders.
pub open spec fn say3(
    template: Seq<char>,
    p: Seq<char>,
    v: Seq<char>,
    q: Seq<char>,
    w: Seq<char>,
    o: Seq<char>,
    x: Seq<char>,
) -> MessageView {
    MessageView { template, fields: seq![(p, v), (q, w), (o, x)] }
}

impl Message {
    /// A message without placeholders.
    pub fn plain(template: &'static str) -> (r: Message)
        ensures
            r@ == say(template@),
    {
        let r = Message { template, fields: Vec::new() };
        proof {
            assert(r@ =~= say(template@));
        }
        r
    }

    /// The message with one more placeholder.
    pub fn with(self, placeholder: &'static str, value: &str) -> (r: Message)
        ensures
            r@ == (MessageView {
                template: self@.template,
                fields: self@.fields.push((placeholder@, value@)),
            }),
    {
        let mut fields: Vec<Field> = self.fields;
        fields.push(Field { placeholder, value: String::from_str(value) });
        let r = Message { template: self.template, fields };
        proof {
            assert(r@.fields =~= self@.fields.push((placeholder@, value@)));
        }
        r
    }

    /// The message in the words of `translation`, with the placeholders replaced.
    pub fn fill(&self, translation: &str) -> (r: String)
        ensures
            r@ == filled(translation@, self@.fields),
    {
        let ghost all = self@.fields;
        let mut out: String = String::from_str(translation);
        let mut i: usize = 0;
        proof {
            assert(all.skip(0) =~= all);
        }
        while i < self.fields.len()
            invariant
                i <= self.fields.len(),
                all == self.fields.deep_view(),
                filled(translation@, all) == filled(out@, all.skip(i as int)),
            decreases self.fields.len() - i,
        {
            let field: &Field = &self.fields[i];
            proof {
                assert(all.skip(i as int)[0] == (field.placeholder@, field.value@));
                assert(all.skip(i as int).drop_first() =~= all.skip(i + 1));
            }
            if !field.placeholder.is_empty() {
                out = replaced(out.as_str(), field.placeholder, field.value.as_str());
            }
            i = i + 1;
        }
        proof {
            assert(all.skip(i as int) =~= Seq::empty());
        }
        out
    }
}

/// Placeholders are replaced in turn: those of two lists one list after the other, and
/// none leaves the text as it is. A placeholder gives way to its value wherever it
/// stands, and a text without it does not change.
pub proof fn law_filled(
    text: Seq<char>,
    a: Seq<(Seq<char>, Seq<char>)>,
    b: Seq<(Seq<char>, Seq<char>)>,
    p: Seq<char>,
    v: Seq<char>,
)
    ensures
        filled(text, Seq::empty()) == text,
        filled(text, seq![(p, v)]) == replace(text, p, v),
        filled(text, a + b) == filled(filled(text, a), b),
        !contains(text, p) ==> filled(text, seq![(p, v)]) == text,
    decreases a.len(),
{
    let one = seq![(p, v)];
    assert(one.drop_first() =~= Seq::empty());
    assert(filled(text, one) == filled(replace(text, p, v), one.drop_first()));
    if !contains(text, p) {
        law_replace_nothing(text, p, v);
    }
    if a.len() > 0 {
        law_filled(replace(text, a[0].0, a[0].1), a.drop_first(), b, p, v);
        assert((a + b).drop_first() =~= a.drop_first() + b);
    } else {
        assert(a + b =~= b);
    }
}

/// The messages with one, two or three placeholders have them in the order given.
pub proof fn law_messages_with_placeholders(
    t: Seq<char>,
    p: Seq<char>,
    v: Seq<char>,
    q: Seq<char>,
    w: Seq<char>,
    o: Seq<char>,
    x: Seq<char>,
)
    ensures
        filled(t, say(t).fields) == t,
        say(t).template == t && say1(t, p, v).template == t && say2(t, p, v, q, w).template == t
            && say3(t, p, v, q, w, o, x).template == t,
        filled(t, say1(t, p, v).fields) == replace(t, p, v),
        filled(t, say2(t, p, v, q, w).fields) == replace(replace(t, p, v), q, w),
        filled(t, say3(t, p, v, q, w, o, x).fields) == replace(
            replace(replace(t, p, v), q, w),
            o,
            x,
        ),
{
    let one = seq![(p, v)];
    let two = seq![(q, w)];
    let three = seq![(o, x)];
    law_filled(t, one, two, p, v);
    law_filled(t, one + two, three, p, v);
    law_filled(replace(t, p, v), one, two, q, w);
    law_filled(replace(replace(t, p, v), q, w), one, two, o, x);
    assert(one + two =~= seq![(p, v), (q, w)]);
    assert(one + two + three =~= seq![(p, v), (q, w), (o, x)]);
}

/// A message is told by its text, its placeholders and what takes their place.
pub proof fn law_messages_by_contents(a: Message, b: Message, i: int)
    requires
        a@ == b@,
    ensures
        a.template@ == b.template@,
        a.fields@.len() == b.fields@.len(),
        0 <= i < a.fields@.len() ==> a.fields@[i].placeholder@ == b.fields@[i].placeholder@
            && a.fields@[i].value@ == b.fields@[i].value@,
{
    assert(a.fields.deep_view().len() == a.fields@.len());
    assert(b.fields.deep_view().len() == b.fields@.len());
    if 0 <= i < a.fields@.len() {
        assert(a.fields.deep_view()[i] == a.fields@[i]@ && b.fields.deep_view()[i]
            == b.fields@[i]@);
    }
}

}
