//! The wire grammar. A message is the first line of what one readable event
//! delivered (a trailing `\r` is dropped): `<op> <key>` or
//! `<op> <key> <value>`, where `op` is `+` (subscribe), `:` (publish) or `-`
//! (unsubscribe), `key` is a non-empty run of characters other than a space,
//! and `value` is the rest of the line after the single space that follows
//! the key, possibly empty or holding spaces. Anything else is not a message.
use vstd::prelude::*;
use vstd::string::*;
use vstd::utf8::*;

use crate::subs::{
    apply, fan_out, lemma_add_then_call, payload, run, subscribers, valid_registry, Cmd, Command,
    Registry,
};

verus! {

broadcast use vstd::string::axiom_spec_iter;

/// The operation a message asks for.
#[derive(Clone, Copy, Debug, PartialEq, Eq, Structural)]
pub enum Op {
    Subscribe,
    Publish,
    Unsubscribe,
}

/// A parsed message.
#[derive(Clone, Debug, PartialEq, Eq)]
pub struct Message {
    pub op: Op,
    pub key: String,
    pub value: String,
}

impl View for Message {
    type V = (Op, Seq<char>, Seq<char>);

    open spec fn view(&self) -> (Op, Seq<char>, Seq<char>) {
        (self.op, self.key@, self.value@)
    }
}

/// The position of the first `c` in `s`, or its length when there is none.
pub open spec fn index_of(s: Seq<char>, c: char) -> int
    decreases s.len(),
{
    if s.len() == 0 {
        0
    } else if s[0] == c {
        0
    } else {
        1 + index_of(s.drop_first(), c)
    }
}

/// `i` is the position of the first `c` in `s` exactly when no earlier
/// character is `c` and `s` holds `c` at `i` or ends there.
pub proof fn lemma_index_of(s: Seq<char>, c: char, i: int)
    requires
        0 <= i <= s.len(),
        forall|j: int| 0 <= j < i ==> s[j] != c,
        i == s.len() || s[i] == c,
    ensures
        index_of(s, c) == i,
    decreases i,
{
    if i > 0 {
        lemma_index_of(s.drop_first(), c, i - 1);
    }
}

/// The first line of `t`, without its line ending.
pub open spec fn line_of(t: Seq<char>) -> Seq<char> {
    let l = t.take(index_of(t, '\n'));
    if l.len() > 0 && l.last() == '\r' {
        l.drop_last()
    } else {
        l
    }
}

/// The operation an operator token names.
pub open spec fn op_of(s: Seq<char>) -> Option<Op> {
    if s == seq!['+'] {
        Some(Op::Subscribe)
    } else if s == seq![':'] {
        Some(Op::Publish)
    } else if s == seq!['-'] {
        Some(Op::Unsubscribe)
    } else {
        None
    }
}

/// The message that `t` holds, if it holds one.
pub open spec fn parse_spec(t: Seq<char>) -> Option<(Op, Seq<char>, Seq<char>)> {
    let l = line_of(t);
    let a = index_of(l, ' ');
    if a >= l.len() {
        None
    } else {
        let rest = l.skip(a + 1);
        let b = index_of(rest, ' ');
        let key = rest.take(b);
        let value = if b < rest.len() {
            rest.skip(b + 1)
        } else {
            Seq::empty()
        };
        match op_of(l.take(a)) {
            Some(op) => if key.len() == 0 {
                None
            } else {
                Some((op, key, value))
            },
            None => None,
        }
    }
}

/// The characters of `s`, in order.
fn chars_of(s: &str) -> (r: Vec<char>)
    ensures
        r@ == s@,
{
    let mut out: Vec<char> = Vec::new();
    for c in it: s.chars()
        invariant
            out@ == it.seq().take(it.index() as int),
    {
        out.push(c);
    }
    assert(out@ =~= s@);
    out
}

/// The position of the first `c` in `v[from..to]`, or `to` when there is none.
fn find(v: &Vec<char>, from: usize, to: usize, c: char) -> (r: usize)
    requires
        from <= to <= v@.len(),
    ensures
        from <= r <= to,
        r - from == index_of(v@.subrange(from as int, to as int), c),
{
    let mut i: usize = from;
    while i < to && v[i] != c
        invariant
            from <= i <= to <= v@.len(),
            forall|j: int| from <= j < i ==> v@[j] != c,
        decreases to - i,
    {
        i = i + 1;
    }
    proof {
        lemma_index_of(v@.subrange(from as int, to as int), c, i - from);
    }
    i
}

/// Reads the message that `text` holds: `None` when it holds none.
pub fn parse(text: &str) -> (r: Option<Message>)
    ensures
        match r {
            Some(m) => parse_spec(text@) == Some(m@),
            None => parse_spec(text@) is None,
        },
{
    let t = chars_of(text);
    let ghost ts = t@;
    let n = find(&t, 0, t.len(), '\n');
    assert(ts.subrange(0, ts.len() as int) == ts);
    let mut end = n;
    if end > 0 && t[end - 1] == '\r' {
        end = end - 1;
    }
    let ghost l = ts.subrange(0, end as int);
    assert(line_of(ts) =~= l);
    let a = find(&t, 0, end, ' ');
    if a == end {
        return None;
    }
    let ghost tok = l.take(a as int);
    assert(seq!['+'].len() == 1 && seq!['+'][0] == '+');
    assert(seq![':'].len() == 1 && seq![':'][0] == ':');
    assert(seq!['-'].len() == 1 && seq!['-'][0] == '-');
    if a != 1 {
        assert(tok.len() != 1);
        return None;
    }
    assert(tok[0] == t@[0]);
    let op = if t[0] == '+' {
        assert(tok =~= seq!['+']);
        Op::Subscribe
    } else if t[0] == ':' {
        assert(tok =~= seq![':']);
        Op::Publish
    } else if t[0] == '-' {
        assert(tok =~= seq!['-']);
        Op::Unsubscribe
    } else {
        assert(tok != seq!['+'] && tok != seq![':'] && tok != seq!['-']);
        return None;
    };
    assert(op_of(tok) == Some(op));
    let b = find(&t, a + 1, end, ' ');
    let ghost rest = l.skip(a + 1);
    assert(rest =~= ts.subrange(a + 1, end as int));
    assert(rest.take(b - a - 1) =~= ts.subrange(a + 1, b as int));
    if b == a + 1 {
        return None;
    }
    let key = String::from_str(text.substring_char(a + 1, b));
    let value = if b < end {
        assert(rest.skip(b - a) =~= ts.subrange(b + 1, end as int));
        String::from_str(text.substring_char(b + 1, end))
    } else {
        String::new()
    };
    Some(Message { op, key, value })
}

/// Registry commands seen as plain values.
pub open spec fn commands_view(cs: Seq<Cmd>) -> Seq<Command> {
    cs.map_values(|c: Cmd| c@)
}

/// The registry commands a message from connection `id` gives, in the order
/// they are sent. A subscribe with a value publishes it after adding the
/// sender; an unsubscribe with a value publishes it before removing the
/// sender.
pub open spec fn commands_spec(id: usize, m: Option<(Op, Seq<char>, Seq<char>)>) -> Seq<Command> {
    match m {
        None => Seq::empty(),
        Some((op, key, value)) => match op {
            Op::Subscribe => if value.len() == 0 {
                seq![Command::Add(key, id)]
            } else {
                seq![Command::Add(key, id), Command::Call(key, value)]
            },
            Op::Publish => seq![Command::Call(key, value)],
            Op::Unsubscribe => if value.len() == 0 {
                seq![Command::Del(key, id)]
            } else {
                seq![Command::Call(key, value), Command::Del(key, id)]
            },
        },
    }
}

/// The registry commands that the text from connection `id` gives.
pub fn commands_of(id: usize, text: &str) -> (r: Vec<Cmd>)
    ensures
        commands_view(r@) == commands_spec(id, parse_spec(text@)),
{
    let mut out: Vec<Cmd> = Vec::new();
    match parse(text) {
        None => {},
        Some(m) => {
            let ghost v = m@;
            match m.op {
                Op::Subscribe => {
                    let has_value = m.value.as_str().unicode_len() != 0;
                    out.push(Cmd::Add(m.key.clone(), id));
                    if has_value {
                        out.push(Cmd::Call(m.key, m.value));
                    }
                },
                Op::Publish => {
                    out.push(Cmd::Call(m.key, m.value));
                },
                Op::Unsubscribe => {
                    let has_value = m.value.as_str().unicode_len() != 0;
                    if has_value {
                        out.push(Cmd::Call(m.key.clone(), m.value));
                    }
                    out.push(Cmd::Del(m.key, id));
                },
            }
            assert(commands_view(out@) =~= commands_spec(id, Some(v)));
        },
    }
    assert(commands_view(out@) =~= commands_spec(id, parse_spec(text@)));
    out
}

/// Relies on std::str::from_utf8: it accepts exactly the valid UTF-8 byte
/// sequences, and decodes them.
#[verifier::external_body]
fn decode(bytes: &Vec<u8>) -> (r: Option<String>)
    ensures
        r is Some <==> valid_utf8(bytes@),
        r matches Some(s) ==> s@ == decode_utf8(bytes@),
{
    std::str::from_utf8(bytes.as_slice()).ok().map(|s| s.to_string())
}

/// The registry commands that the bytes from connection `id` give.
pub open spec fn payload_commands(id: usize, bytes: Seq<u8>) -> Seq<Command> {
    if valid_utf8(bytes) {
        commands_spec(id, parse_spec(decode_utf8(bytes)))
    } else {
        Seq::empty()
    }
}

/// The registry commands that one read payload of connection `id` gives:
/// none unless it is valid UTF-8 text holding a message.
pub fn dispatch(id: usize, bytes: &Vec<u8>) -> (r: Vec<Cmd>)
    ensures
        commands_view(r@) == payload_commands(id, bytes@),
{
    match decode(bytes) {
        Some(text) => commands_of(id, text.as_str()),
        None => {
            assert(commands_view(Seq::<Cmd>::empty()) =~= Seq::<Command>::empty());
            Vec::new()
        },
    }
}

/// A subscribe that carries a value adds the sender first and then
/// publishes: the sender and every earlier subscriber of the key receive
/// `<key> <value>`, and the sender stays subscribed.
pub proof fn lemma_subscribe_then_publish(
    m: Registry,
    id: usize,
    key: Seq<char>,
    value: Seq<char>,
    x: usize,
)
    requires
        valid_registry(m),
        value.len() > 0,
    ensures
        ({
            let out = run(m, commands_spec(id, Some((Op::Subscribe, key, value))));
            &&& out.0 == apply(m, Command::Add(key, id))
            &&& out.1 == fan_out(apply(m, Command::Add(key, id)), Command::Call(key, value))
            &&& subscribers(out.0, key).contains(id)
            &&& (x == id || subscribers(m, key).contains(x)) ==> out.1.contains(
                (x, payload(key, value)),
            )
        }),
{
    let cs = commands_spec(id, Some((Op::Subscribe, key, value)));
    let m1 = apply(m, Command::Add(key, id));
    let rest = cs.drop_first();
    assert(rest =~= seq![Command::Call(key, value)]);
    assert(rest.drop_first() =~= Seq::<Command>::empty());
    assert(run(m1, rest.drop_first()) == (m1, Seq::<(usize, Seq<char>)>::empty()));
    assert(run(m1, rest).1 =~= fan_out(m1, Command::Call(key, value)));
    assert(run(m, cs).1 =~= fan_out(m1, Command::Call(key, value)));
    lemma_add_then_call(m, key, id, value, x);
}

/// An unsubscribe that carries a value publishes first and then removes the
/// sender: every current subscriber, the sender included if subscribed,
/// receives `<key> <value>`, and afterwards the sender is not subscribed.
pub proof fn lemma_publish_then_unsubscribe(
    m: Registry,
    id: usize,
    key: Seq<char>,
    value: Seq<char>,
)
    requires
        valid_registry(m),
        value.len() > 0,
    ensures
        ({
            let out = run(m, commands_spec(id, Some((Op::Unsubscribe, key, value))));
            &&& out.0 == apply(m, Command::Del(key, id))
            &&& out.1 == fan_out(m, Command::Call(key, value))
            &&& !subscribers(out.0, key).contains(id)
        }),
{
    let cs = commands_spec(id, Some((Op::Unsubscribe, key, value)));
    let m2 = apply(m, Command::Del(key, id));
    let rest = cs.drop_first();
    assert(rest =~= seq![Command::Del(key, id)]);
    assert(rest.drop_first() =~= Seq::<Command>::empty());
    assert(run(m2, rest.drop_first()) == (m2, Seq::<(usize, Seq<char>)>::empty()));
    assert(run(m, rest).1 =~= Seq::<(usize, Seq<char>)>::empty());
    assert(run(m, cs).1 =~= fan_out(m, Command::Call(key, value)));
    if m.contains_key(key) {
        crate::subs::lemma_without_id(m[key], id);
    }
}

} // verus!
