use vstd::prelude::*;
use vstd::string::*;

verus! {

/// A command for the subscription registry.
#[derive(Clone, Debug, PartialEq, Eq)]
pub enum Cmd {
    /// Subscribe connection `id` to `key`.
    Add(String, usize),
    /// Unsubscribe connection `id` from `key`.
    Del(String, usize),
    /// Publish `value` on `key` to every current subscriber.
    Call(String, String),
}

/// A registry command over plain sequences.
pub enum Command {
    Add(Seq<char>, usize),
    Del(Seq<char>, usize),
    Call(Seq<char>, Seq<char>),
}

impl View for Cmd {
    type V = Command;

    open spec fn view(&self) -> Command {
        match self {
            Cmd::Add(key, id) => Command::Add(key@, *id),
            Cmd::Del(key, id) => Command::Del(key@, *id),
            Cmd::Call(key, value) => Command::Call(key@, value@),
        }
    }
}

/// One write of the fan-out: `payload` goes to connection `id`.
#[derive(Clone, Debug, PartialEq, Eq)]
pub struct Delivery {
    pub id: usize,
    pub payload: String,
}

impl View for Delivery {
    type V = (usize, Seq<char>);

    open spec fn view(&self) -> (usize, Seq<char>) {
        (self.id, self.payload@)
    }
}

/// The deliveries of a fan-out, seen as plain pairs.
pub open spec fn deliveries_view(ds: Seq<Delivery>) -> Seq<(usize, Seq<char>)> {
    ds.map_values(|d: Delivery| d@)
}

/// A registry: each key to its subscribers, in the order they subscribed.
pub type Registry = Map<Seq<char>, Seq<usize>>;

/// No connection appears twice.
pub open spec fn no_dups(s: Seq<usize>) -> bool {
    forall|i: int, j: int| 0 <= i < j < s.len() ==> s[i] != s[j]
}

/// Every subscriber list of the registry is free of duplicates.
pub open spec fn valid_registry(m: Registry) -> bool {
    forall|k: Seq<char>| #[trigger] m.contains_key(k) ==> no_dups(m[k])
}

/// The subscribers of `key`; none when the key is unknown.
pub open spec fn subscribers(m: Registry, key: Seq<char>) -> Seq<usize> {
    if m.contains_key(key) {
        m[key]
    } else {
        Seq::empty()
    }
}

/// `s` with `id` added at the end, unless it is there already.
pub open spec fn with_id(s: Seq<usize>, id: usize) -> Seq<usize> {
    if s.contains(id) {
        s
    } else {
        s.push(id)
    }
}

/// `s` without `id`, the others in their order.
pub open spec fn without_id(s: Seq<usize>, id: usize) -> Seq<usize>
    decreases s.len(),
{
    if s.len() == 0 {
        s
    } else {
        let rest = without_id(s.drop_last(), id);
        if s.last() == id {
            rest
        } else {
            rest.push(s.last())
        }
    }
}

/// What a subscriber of `key` receives when `value` is published on it.
pub open spec fn payload(key: Seq<char>, value: Seq<char>) -> Seq<char> {
    key + seq![' '] + value
}

/// The registry after a command.
pub open spec fn apply(m: Registry, c: Command) -> Registry {
    match c {
        Command::Add(key, id) => m.insert(key, with_id(subscribers(m, key), id)),
        Command::Del(key, id) => if m.contains_key(key) {
            m.insert(key, without_id(m[key], id))
        } else {
            m
        },
        Command::Call(_, _) => m,
    }
}

/// The writes a command causes: for a publish, one payload to each
/// subscriber of its key, in subscription order; none otherwise.
pub open spec fn fan_out(m: Registry, c: Command) -> Seq<(usize, Seq<char>)> {
    match c {
        Command::Call(key, value) => {
            let subs = subscribers(m, key);
            Seq::new(subs.len(), |j: int| (subs[j], payload(key, value)))
        },
        _ => Seq::empty(),
    }
}

/// The registry after the commands, in order, and the writes they caused.
pub open spec fn run(m: Registry, cs: Seq<Command>) -> (Registry, Seq<(usize, Seq<char>)>)
    decreases cs.len(),
{
    if cs.len() == 0 {
        (m, Seq::empty())
    } else {
        let after = run(apply(m, cs[0]), cs.drop_first());
        (after.0, fan_out(m, cs[0]) + after.1)
    }
}

/// Removing an id keeps exactly the other ids, each once.
pub proof fn lemma_without_id(s: Seq<usize>, id: usize)
    ensures
        forall|x: usize| #[trigger] without_id(s, id).contains(x) <==> (s.contains(x) && x != id),
        no_dups(s) ==> no_dups(without_id(s, id)),
        !s.contains(id) ==> without_id(s, id) == s,
    decreases s.len(),
{
    if s.len() > 0 {
        let init = s.drop_last();
        let last = s.last();
        let rest = without_id(init, id);
        lemma_without_id(init, id);
        assert(s == init.push(last));
        assert forall|x: usize| s.contains(x) <==> (init.contains(x) || x == last) by {
            if s.contains(x) && x != last {
                let k = choose|k: int| 0 <= k < s.len() && s[k] == x;
                assert(init[k] == x);
            }
            if init.contains(x) {
                let k = choose|k: int| 0 <= k < init.len() && init[k] == x;
                assert(s[k] == x);
            }
            if x == last {
                assert(s[s.len() - 1] == x);
            }
        }
        assert forall|x: usize| rest.push(last).contains(x) <==> (rest.contains(x) || x == last) by {
            let p = rest.push(last);
            if p.contains(x) && x != last {
                let k = choose|k: int| 0 <= k < p.len() && p[k] == x;
                assert(rest[k] == x);
            }
            if rest.contains(x) {
                let k = choose|k: int| 0 <= k < rest.len() && rest[k] == x;
                assert(p[k] == x);
            }
            if x == last {
                assert(p[p.len() - 1] == x);
            }
        }
        assert(without_id(s, id) == if last == id {
            rest
        } else {
            rest.push(last)
        });
        assert forall|x: usize| #[trigger] without_id(s, id).contains(x) <==> (s.contains(x) && x
            != id) by {
            assert(rest.contains(x) <==> (init.contains(x) && x != id));
        }
        if no_dups(s) {
            assert(no_dups(init));
            if last != id {
                assert(!init.contains(last)) by {
                    if init.contains(last) {
                        let k = choose|k: int| 0 <= k < init.len() && init[k] == last;
                        assert(s[k] == s[s.len() - 1]);
                    }
                }
                assert(!rest.contains(last));
                let p = rest.push(last);
                assert forall|i: int, j: int| 0 <= i < j < p.len() implies p[i] != p[j] by {
                    if j == p.len() - 1 {
                        assert(rest[i] == p[i]);
                    } else {
                        assert(rest[i] == p[i] && rest[j] == p[j]);
                    }
                }
            }
        }
    }
}

/// Every command keeps each subscriber list free of duplicates.
pub proof fn lemma_apply_valid(m: Registry, c: Command)
    requires
        valid_registry(m),
    ensures
        valid_registry(apply(m, c)),
{
    match c {
        Command::Add(key, id) => {
            let s = subscribers(m, key);
            if !s.contains(id) {
                let p = s.push(id);
                assert forall|i: int, j: int| 0 <= i < j < p.len() implies p[i] != p[j] by {
                    if j == p.len() - 1 {
                        assert(s[i] == p[i]);
                    } else {
                        assert(s[i] == p[i] && s[j] == p[j]);
                    }
                }
            }
        },
        Command::Del(key, id) => {
            if m.contains_key(key) {
                lemma_without_id(m[key], id);
            }
        },
        Command::Call(_, _) => {},
    }
}

/// A publish reaches every current subscriber of its key exactly once, with
/// the payload `<key> <value>`, and reaches no other connection.
pub proof fn lemma_fan_out_exactly_once(m: Registry, key: Seq<char>, value: Seq<char>, x: usize)
    requires
        valid_registry(m),
    ensures
        subscribers(m, key).contains(x) ==> exists|i: int|
            0 <= i < fan_out(m, Command::Call(key, value)).len() && #[trigger] fan_out(
                m,
                Command::Call(key, value),
            )[i] == (x, payload(key, value)) && forall|j: int|
                0 <= j < fan_out(m, Command::Call(key, value)).len() && j != i ==> (fan_out(
                    m,
                    Command::Call(key, value),
                )[j]).0 != x,
        !subscribers(m, key).contains(x) ==> forall|j: int|
            0 <= j < fan_out(m, Command::Call(key, value)).len() ==> (fan_out(
                m,
                Command::Call(key, value),
            )[j]).0 != x,
{
    let s = subscribers(m, key);
    let ds = fan_out(m, Command::Call(key, value));
    assert(no_dups(s));
    if s.contains(x) {
        let i = choose|i: int| 0 <= i < s.len() && s[i] == x;
        assert(ds[i] == (x, payload(key, value)));
    } else {
        assert forall|j: int| 0 <= j < ds.len() implies (ds[j]).0 != x by {
            assert(ds[j].0 == s[j]);
        }
    }
}

/// After `Add(key, id)` and then `Call(key, value)`, `id` receives the
/// payload exactly once, as does every earlier subscriber; a connection that
/// is not subscribed receives nothing.
pub proof fn lemma_add_then_call(
    m: Registry,
    key: Seq<char>,
    id: usize,
    value: Seq<char>,
    x: usize,
)
    requires
        valid_registry(m),
    ensures
        ({
            let m2 = apply(m, Command::Add(key, id));
            let ds = fan_out(m2, Command::Call(key, value));
            &&& subscribers(m2, key).contains(id)
            &&& (x == id || subscribers(m, key).contains(x)) ==> exists|i: int|
                0 <= i < ds.len() && #[trigger] ds[i] == (x, payload(key, value)) && forall|
                    j: int,
                | 0 <= j < ds.len() && j != i ==> (ds[j]).0 != x
            &&& !(x == id || subscribers(m, key).contains(x)) ==> forall|j: int|
                0 <= j < ds.len() ==> (ds[j]).0 != x
        }),
{
    let s = subscribers(m, key);
    let m2 = apply(m, Command::Add(key, id));
    lemma_apply_valid(m, Command::Add(key, id));
    lemma_fan_out_exactly_once(m2, key, value, x);
    let s2 = subscribers(m2, key);
    assert(s2 == with_id(s, id));
    if !s.contains(id) {
        assert(s2[s.len() as int] == id);
    }
    assert(s2.contains(x) <==> (x == id || s.contains(x))) by {
        if !s.contains(id) {
            if s2.contains(x) && x != id {
                let k = choose|k: int| 0 <= k < s2.len() && s2[k] == x;
                assert(s[k] == x);
            }
            if s.contains(x) {
                let k = choose|k: int| 0 <= k < s.len() && s[k] == x;
                assert(s2[k] == x);
            }
        }
    }
}

/// Subscribing twice leaves the registry as subscribing once.
pub proof fn lemma_add_idempotent(m: Registry, key: Seq<char>, id: usize)
    ensures
        apply(apply(m, Command::Add(key, id)), Command::Add(key, id)) == apply(
            m,
            Command::Add(key, id),
        ),
{
    let m1 = apply(m, Command::Add(key, id));
    let s = subscribers(m, key);
    if !s.contains(id) {
        assert(s.push(id)[s.len() as int] == id);
    }
    assert(subscribers(m1, key).contains(id));
    assert(m1.insert(key, m1[key]) =~= m1);
}

/// Unsubscribing a connection that is not subscribed changes nothing.
pub proof fn lemma_del_absent(m: Registry, key: Seq<char>, id: usize)
    requires
        !subscribers(m, key).contains(id),
    ensures
        apply(m, Command::Del(key, id)) == m,
{
    if m.contains_key(key) {
        lemma_without_id(m[key], id);
        assert(m.insert(key, m[key]) =~= m);
    }
}

/// A publish on a key with no subscribers writes nothing.
pub proof fn lemma_call_without_subscribers(m: Registry, key: Seq<char>, value: Seq<char>)
    requires
        subscribers(m, key).len() == 0,
    ensures
        fan_out(m, Command::Call(key, value)).len() == 0,
        apply(m, Command::Call(key, value)) == m,
{
}

struct Topic {
    key: String,
    ids: Vec<usize>,
}

/// The subscription registry: each key with its subscribers in the order
/// they subscribed, each at most once.
pub struct Subs {
    topics: Vec<Topic>,
    model: Ghost<Registry>,
}

impl View for Subs {
    type V = Registry;

    closed spec fn view(&self) -> Registry {
        self.model@
    }
}

/// True when `ids` holds `id`.
pub(crate) fn holds(ids: &Vec<usize>, id: usize) -> (r: bool)
    ensures
        r == ids@.contains(id),
{
    let mut i: usize = 0;
    while i < ids.len()
        invariant
            i <= ids@.len(),
            forall|j: int| 0 <= j < i ==> ids@[j] != id,
        decreases ids@.len() - i,
    {
        if ids[i] == id {
            return true;
        }
        i = i + 1;
    }
    false
}

/// `ids` without `id`.
pub(crate) fn remove_id(ids: &Vec<usize>, id: usize) -> (r: Vec<usize>)
    ensures
        r@ == without_id(ids@, id),
{
    let mut out: Vec<usize> = Vec::new();
    let mut i: usize = 0;
    while i < ids.len()
        invariant
            i <= ids@.len(),
            out@ == without_id(ids@.take(i as int), id),
        decreases ids@.len() - i,
    {
        assert(ids@.take(i + 1).drop_last() == ids@.take(i as int));
        if ids[i] != id {
            out.push(ids[i]);
        }
        i = i + 1;
    }
    assert(ids@.take(ids@.len() as int) == ids@);
    out
}

impl Subs {
    /// The topics match the registry, keys are unique, and no subscriber
    /// list holds an id twice.
    pub closed spec fn wf(&self) -> bool {
        &&& forall|i: int, j: int|
            0 <= i < j < self.topics@.len() ==> #[trigger] self.topics@[i].key@
                != #[trigger] self.topics@[j].key@
        &&& forall|i: int|
            0 <= i < self.topics@.len() ==> {
                &&& self.model@.contains_key(#[trigger] self.topics@[i].key@)
                &&& self.model@[self.topics@[i].key@] == self.topics@[i].ids@
            }
        &&& forall|k: Seq<char>| #[trigger]
            self.model@.contains_key(k) ==> exists|i: int|
                0 <= i < self.topics@.len() && #[trigger] self.topics@[i].key@ == k
        &&& valid_registry(self.model@)
    }

    /// A well-formed registry has no duplicate subscribers.
    pub proof fn lemma_valid(&self)
        requires
            self.wf(),
        ensures
            valid_registry(self@),
    {
    }

    /// An empty registry.
    pub fn new() -> (r: Subs)
        ensures
            r.wf(),
            r@ == Map::<Seq<char>, Seq<usize>>::empty(),
    {
        Subs { topics: Vec::new(), model: Ghost(Map::empty()) }
    }

    /// The position of the topic of `key`, if it has one.
    fn find(&self, key: &String) -> (r: Option<usize>)
        requires
            self.wf(),
        ensures
            match r {
                Some(i) => i < self.topics@.len() && self.topics@[i as int].key@ == key@,
                None => !self@.contains_key(key@),
            },
    {
        let mut i: usize = 0;
        while i < self.topics.len()
            invariant
                self.wf(),
                i <= self.topics@.len(),
                forall|j: int| 0 <= j < i ==> self.topics@[j].key@ != key@,
            decreases self.topics@.len() - i,
        {
            if self.topics[i].key == *key {
                return Some(i);
            }
            i = i + 1;
        }
        None
    }

    /// The subscribers of `key`, in the order they subscribed.
    pub fn subscribers_of(&self, key: &String) -> (r: Vec<usize>)
        requires
            self.wf(),
        ensures
            r@ == subscribers(self@, key@),
    {
        match self.find(key) {
            Some(i) => self.topics[i].ids.clone(),
            None => Vec::new(),
        }
    }

    /// Replaces the subscribers of the topic at `i`.
    fn set_ids(&mut self, i: usize, ids: Vec<usize>)
        requires
            old(self).wf(),
            i < old(self).topics@.len(),
            no_dups(ids@),
        ensures
            final(self).wf(),
            final(self)@ == old(self)@.insert(old(self).topics@[i as int].key@, ids@),
    {
        let ghost key = self.topics@[i as int].key@;
        let mut topic = self.topics.remove(i);
        topic.ids = ids;
        self.topics.insert(i, topic);
        self.model = Ghost(self.model@.insert(key, ids@));
        assert forall|k: Seq<char>| #[trigger] self.model@.contains_key(k) implies exists|j: int|
            0 <= j < self.topics@.len() && #[trigger] self.topics@[j].key@ == k by {
            if k != key {
                let j = choose|j: int|
                    0 <= j < old(self).topics@.len() && #[trigger] old(self).topics@[j].key@ == k;
                assert(self.topics@[j].key@ == k);
            } else {
                assert(self.topics@[i as int].key@ == k);
            }
        }
        assert forall|i2: int|
            0 <= i2 < self.topics@.len() implies self.model@[#[trigger] self.topics@[i2].key@]
            == self.topics@[i2].ids@ by {
            if i2 != i {
                assert(old(self).topics@[i2] == self.topics@[i2]);
            }
        }
    }

    /// Takes one command, in the order commands were sent. `Add` subscribes
    /// the id unless it already is; `Del` unsubscribes it; `Call` changes
    /// nothing and returns the payload `<key> <value>` for each subscriber
    /// of the key, in the order they subscribed.
    pub fn handle(&mut self, cmd: Cmd) -> (r: Vec<Delivery>)
        requires
            old(self).wf(),
        ensures
            final(self).wf(),
            final(self)@ == apply(old(self)@, cmd@),
            deliveries_view(r@) == fan_out(old(self)@, cmd@),
    {
        match cmd {
            Cmd::Add(key, id) => {
                match self.find(&key) {
                    Some(i) => {
                        if !holds(&self.topics[i].ids, id) {
                            let mut ids = self.topics[i].ids.clone();
                            ids.push(id);
                            self.set_ids(i, ids);
                        } else {
                            assert(self.model@.insert(key@, self.model@[key@]) =~= self.model@);
                        }
                    },
                    None => {
                        let ghost k = key@;
                        let mut ids: Vec<usize> = Vec::new();
                        ids.push(id);
                        self.topics.push(Topic { key, ids });
                        self.model = Ghost(self.model@.insert(k, seq![id]));
                        assert(with_id(Seq::<usize>::empty(), id) == seq![id]);
                        assert forall|k2: Seq<char>| #[trigger]
                            self.model@.contains_key(k2) implies exists|j: int|
                            0 <= j < self.topics@.len() && #[trigger] self.topics@[j].key@
                                == k2 by {
                            if k2 != k {
                                let j = choose|j: int|
                                    0 <= j < old(self).topics@.len()
                                        && #[trigger] old(self).topics@[j].key@ == k2;
                                assert(self.topics@[j].key@ == k2);
                            } else {
                                assert(self.topics@[self.topics@.len() - 1].key@ == k2);
                            }
                        }
                    },
                }
                Vec::new()
            },
            Cmd::Del(key, id) => {
                match self.find(&key) {
                    Some(i) => {
                        let ids = remove_id(&self.topics[i].ids, id);
                        proof {
                            lemma_without_id(self.topics@[i as int].ids@, id);
                        }
                        self.set_ids(i, ids);
                    },
                    None => {},
                }
                Vec::new()
            },
            Cmd::Call(key, value) => {
                let mut out: Vec<Delivery> = Vec::new();
                match self.find(&key) {
                    Some(t) => {
                        let mut text = key.clone();
                        proof {
                            reveal_strlit(" ");
                        }
                        text.append(" ");
                        text.append(value.as_str());
                        let ghost subs = self.topics@[t as int].ids@;
                        let mut i: usize = 0;
                        while i < self.topics[t].ids.len()
                            invariant
                                self.wf(),
                                t < self.topics@.len(),
                                subs == self.topics@[t as int].ids@,
                                text@ == payload(key@, value@),
                                i <= subs.len(),
                                out@.len() == i,
                                forall|j: int|
                                    0 <= j < i ==> (#[trigger] out@[j])@ == (
                                    subs[j],
                                    payload(key@, value@),
                                ),
                            decreases subs.len() - i,
                        {
                            out.push(Delivery { id: self.topics[t].ids[i], payload: text.clone() });
                            i = i + 1;
                        }
                    },
                    None => {},
                }
                assert(deliveries_view(out@) =~= fan_out(self@, Command::Call(key@, value@)));
                out
            },
        }
    }
}

} // verus!
