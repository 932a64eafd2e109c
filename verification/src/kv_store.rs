//! The key/value store behind the demo server: each command read from a
//! client is applied to the store and answered.

use vstd::prelude::*;
use vstd::string::*;
use crate::keyed::{distinct_keys, find_key, keyed_map, lemma_map_entry, lemma_map_push, lemma_map_update, texts};

verus! {

/// A command of a client.
pub enum KvCommand {
    /// Read the value stored under `key`.
    Get { key: String },
    /// Store `value` under `key`.
    Put { key: String, value: Vec<u8> },
}

/// The answer to a command.
pub enum KvReply {
    /// A short status text.
    Simple(String),
    /// A stored value.
    Bulk(Vec<u8>),
    /// No value.
    Null,
}

pub enum KvCommandView {
    Get { key: Seq<char> },
    Put { key: Seq<char>, value: Seq<u8> },
}

pub enum KvReplyView {
    Simple(Seq<char>),
    Bulk(Seq<u8>),
    Null,
}

impl View for KvCommand {
    type V = KvCommandView;

    open spec fn view(&self) -> KvCommandView {
        match self {
            KvCommand::Get { key } => KvCommandView::Get { key: key@ },
            KvCommand::Put { key, value } => KvCommandView::Put { key: key@, value: value@ },
        }
    }
}

impl View for KvReply {
    type V = KvReplyView;

    open spec fn view(&self) -> KvReplyView {
        match self {
            KvReply::Simple(s) => KvReplyView::Simple(s@),
            KvReply::Bulk(b) => KvReplyView::Bulk(b@),
            KvReply::Null => KvReplyView::Null,
        }
    }
}

/// The status text that acknowledges a stored value.
pub open spec fn ok_text() -> Seq<char> {
    seq!['O', 'K']
}

/// The store after `command`, and the answer to it: a put stores the value
/// (in place of any before it) and is acknowledged with `OK`; a get leaves
/// the store as it is and answers with the stored value, or with no value
/// when none is stored under the key.
pub open spec fn apply_view(store: Map<Seq<char>, Seq<u8>>, command: KvCommandView) -> (Map<
    Seq<char>,
    Seq<u8>,
>, KvReplyView) {
    match command {
        KvCommandView::Put { key, value } => (
            store.insert(key, value),
            KvReplyView::Simple(ok_text()),
        ),
        KvCommandView::Get { key } => (
            store,
            if store.contains_key(key) {
                KvReplyView::Bulk(store[key])
            } else {
                KvReplyView::Null
            },
        ),
    }
}

/// Values stored under distinct keys.
pub struct KvStore {
    keys: Vec<String>,
    values: Vec<Vec<u8>>,
}

impl View for KvStore {
    type V = Map<Seq<char>, Seq<u8>>;

    closed spec fn view(&self) -> Map<Seq<char>, Seq<u8>> {
        keyed_map(texts(self.keys@), self.value_seq())
    }
}

impl KvStore {
    closed spec fn value_seq(&self) -> Seq<Seq<u8>> {
        self.values@.map_values(|v: Vec<u8>| v@)
    }

    /// One value per key, and no key twice.
    pub closed spec fn wf(&self) -> bool {
        &&& self.keys@.len() == self.values@.len()
        &&& distinct_keys(texts(self.keys@))
    }

    /// An empty store.
    pub fn new() -> (s: Self)
        ensures
            s.wf(),
            s@ == Map::<Seq<char>, Seq<u8>>::empty(),
    {
        let s = KvStore { keys: Vec::new(), values: Vec::new() };
        assert(texts(s.keys@) =~= Seq::<Seq<char>>::empty());
        assert(s@ =~= Map::<Seq<char>, Seq<u8>>::empty());
        s
    }

    /// Applies `command` to the store and returns the answer to it.
    pub fn apply(&mut self, command: KvCommand) -> (reply: KvReply)
        requires
            old(self).wf(),
        ensures
            final(self).wf(),
            (final(self)@, reply@) == apply_view(old(self)@, command@),
    {
        let ghost ks = texts(self.keys@);
        let ghost vs = self.value_seq();
        match command {
            KvCommand::Put { key, value } => {
                match find_key(&self.keys, &key) {
                    Some(i) => {
                        let ghost v = value@;
                        self.values.set(i, value);
                        proof {
                            assert(texts(self.keys@) == ks);
                            assert(self.value_seq() =~= vs.update(i as int, v));
                            lemma_map_update(ks, vs, i as int, v);
                        }
                    },
                    None => {
                        let ghost k = key@;
                        let ghost v = value@;
                        self.keys.push(key);
                        self.values.push(value);
                        proof {
                            assert(texts(self.keys@) =~= ks.push(k));
                            assert(self.value_seq() =~= vs.push(v));
                            lemma_map_push(ks, vs, k, v);
                        }
                    },
                }
                let ok = String::from_str("OK");
                proof { reveal_strlit("OK"); }
                assert(ok@ =~= ok_text());
                KvReply::Simple(ok)
            },
            KvCommand::Get { key } => {
                match find_key(&self.keys, &key) {
                    Some(i) => {
                        proof { lemma_map_entry(ks, vs, i as int); }
                        let value = self.values[i].clone();
                        assert(value@ =~= self.values@[i as int]@);
                        KvReply::Bulk(value)
                    },
                    None => KvReply::Null,
                }
            },
        }
    }
}

} // verus!

verus! {

/// A get answers with the value that the last put under the same key
/// stored.
pub proof fn law_get_returns_what_was_put(
    store: Map<Seq<char>, Seq<u8>>,
    key: Seq<char>,
    value: Seq<u8>,
)
    ensures
        apply_view(
            apply_view(store, KvCommandView::Put { key, value }).0,
            KvCommandView::Get { key },
        ).1 == KvReplyView::Bulk(value),
{
}

/// A put under one key does not change what a get under another key
/// answers.
pub proof fn law_put_leaves_other_keys(
    store: Map<Seq<char>, Seq<u8>>,
    key: Seq<char>,
    value: Seq<u8>,
    other: Seq<char>,
)
    requires
        other != key,
    ensures
        apply_view(
            apply_view(store, KvCommandView::Put { key, value }).0,
            KvCommandView::Get { key: other },
        ).1 == apply_view(store, KvCommandView::Get { key: other }).1,
{
}

/// Of two puts under the same key, the second wins.
pub proof fn law_last_put_wins(
    store: Map<Seq<char>, Seq<u8>>,
    key: Seq<char>,
    first: Seq<u8>,
    second: Seq<u8>,
)
    ensures
        apply_view(
            apply_view(store, KvCommandView::Put { key, value: first }).0,
            KvCommandView::Put { key, value: second },
        ).0 == apply_view(store, KvCommandView::Put { key, value: second }).0,
{
    assert(apply_view(
        apply_view(store, KvCommandView::Put { key, value: first }).0,
        KvCommandView::Put { key, value: second },
    ).0 =~= apply_view(store, KvCommandView::Put { key, value: second }).0);
}

/// A get never changes the store, and every put is acknowledged with `OK`.
pub proof fn law_get_is_read_only_and_put_is_acknowledged(
    store: Map<Seq<char>, Seq<u8>>,
    key: Seq<char>,
    value: Seq<u8>,
)
    ensures
        apply_view(store, KvCommandView::Get { key }).0 == store,
        apply_view(store, KvCommandView::Put { key, value }).1 == KvReplyView::Simple(ok_text()),
{
}

} // verus!

verus! {

/// The store after each of `commands` in turn, from `store`, and the answers
/// to them, in order.
pub open spec fn run_commands(store: Map<Seq<char>, Seq<u8>>, commands: Seq<KvCommandView>) -> (
    Map<Seq<char>, Seq<u8>>,
    Seq<KvReplyView>,
)
    decreases commands.len(),
{
    if commands.len() == 0 {
        (store, Seq::empty())
    } else {
        let before = run_commands(store, commands.drop_last());
        let after = apply_view(before.0, commands.last());
        (after.0, before.1.push(after.1))
    }
}

/// The value of the last put under `key` among `commands`, if there is one.
pub open spec fn last_put(commands: Seq<KvCommandView>, key: Seq<char>) -> Option<Seq<u8>>
    decreases commands.len(),
{
    if commands.len() == 0 {
        None
    } else {
        match commands.last() {
            KvCommandView::Put { key: k, value } => if k == key {
                Some(value)
            } else {
                last_put(commands.drop_last(), key)
            },
            KvCommandView::Get { .. } => last_put(commands.drop_last(), key),
        }
    }
}

proof fn lemma_store_holds_last_puts(commands: Seq<KvCommandView>, key: Seq<char>)
    ensures
        run_commands(Map::empty(), commands).0.contains_key(key) == last_put(commands, key) is Some,
        last_put(commands, key) is Some ==> run_commands(Map::empty(), commands).0[key]
            == last_put(commands, key)->0,
    decreases commands.len(),
{
    if commands.len() > 0 {
        lemma_store_holds_last_puts(commands.drop_last(), key);
    }
}

proof fn lemma_run_len(store: Map<Seq<char>, Seq<u8>>, commands: Seq<KvCommandView>)
    ensures
        run_commands(store, commands).1.len() == commands.len(),
    decreases commands.len(),
{
    if commands.len() > 0 {
        lemma_run_len(store, commands.drop_last());
    }
}

proof fn lemma_reply_of_prefix(
    store: Map<Seq<char>, Seq<u8>>,
    commands: Seq<KvCommandView>,
    i: int,
)
    requires
        0 <= i < commands.len(),
    ensures
        run_commands(store, commands).1.len() == commands.len(),
        run_commands(store, commands).1[i] == apply_view(
            run_commands(store, commands.take(i)).0,
            commands[i],
        ).1,
    decreases commands.len(),
{
    let prefix = commands.drop_last();
    lemma_run_len(store, commands);
    if i < commands.len() - 1 {
        lemma_reply_of_prefix(store, prefix, i);
        assert(prefix.take(i) =~= commands.take(i));
        assert(prefix[i] == commands[i]);
    } else {
        assert(commands.take(i) =~= prefix);
    }
}

/// Over a whole run of commands on a store that starts empty, as on each
/// connection of the demo server: every put is answered with `OK`, and every
/// get with the value of the last put under its key before it, or with no
/// value when there was none.
pub proof fn law_replies_follow_last_put(commands: Seq<KvCommandView>, i: int)
    requires
        0 <= i < commands.len(),
    ensures
        run_commands(Map::empty(), commands).1.len() == commands.len(),
        run_commands(Map::empty(), commands).1[i] == match commands[i] {
            KvCommandView::Put { .. } => KvReplyView::Simple(ok_text()),
            KvCommandView::Get { key } => match last_put(commands.take(i), key) {
                Some(v) => KvReplyView::Bulk(v),
                None => KvReplyView::Null,
            },
        },
{
    lemma_reply_of_prefix(Map::empty(), commands, i);
    match commands[i] {
        KvCommandView::Put { .. } => {},
        KvCommandView::Get { key } => {
            lemma_store_holds_last_puts(commands.take(i), key);
        },
    }
}

} // verus!

verus! {

/// The acknowledgement of a put is the text `OK`.
pub proof fn law_acknowledgement_is_ok()
    ensures
        ok_text() == "OK"@,
{
    reveal_strlit("OK");
    assert(ok_text() =~= "OK"@);
}

} // verus!
