//! Agent identity, messages, state actions, and the two-tier per-agent state
//! store: an ephemeral cache that is the read authority, with every mutation
//! written through to a persistent backend under the `"{agentId}:{key}"`
//! namespace.

use vstd::prelude::*;

use crate::Error;
use crate::kvmap::KvMap;
use crate::memory::MemoryBackend;
use crate::memory::prefix_matches;
use crate::text::{
    concat2, concat3, lemma_concat_parts, lemma_prefix_injective, lemma_prefix_recompose, str_eq,
    suffix_after,
};
use crate::value::{ValModel, Value};

verus! {

/// An opaque unique agent identity, stable for the agent's lifetime.
#[derive(Debug, Clone)]
pub struct AgentId(pub String);

impl View for AgentId {
    type V = Seq<char>;

    open spec fn view(&self) -> Seq<char> {
        self.0@
    }
}

impl AgentId {
    /// A copy that names the same agent.
    pub fn duplicate(&self) -> (r: AgentId)
        ensures
            r@ == self@,
    {
        AgentId(self.0.clone())
    }
}

/// An immutable inter-agent message.
#[derive(Debug)]
pub struct Message {
    pub id: String,
    pub from: AgentId,
    pub to: AgentId,
    pub payload: Value,
    pub timestamp: u64,
}

/// A direct state-store operation, bypassing message classification.
#[derive(Debug)]
pub enum StateAction {
    Store { key: String, value: Value },
    Get { key: String },
    Delete { key: String },
    Clear,
    List,
}

/// The model of a state action.
pub enum StateActionModel {
    Store(Seq<char>, ValModel),
    Get(Seq<char>),
    Delete(Seq<char>),
    Clear,
    List,
}

impl View for StateAction {
    type V = StateActionModel;

    open spec fn view(&self) -> StateActionModel {
        match self {
            StateAction::Store { key, value } => StateActionModel::Store(key@, value@),
            StateAction::Get { key } => StateActionModel::Get(key@),
            StateAction::Delete { key } => StateActionModel::Delete(key@),
            StateAction::Clear => StateActionModel::Clear,
            StateAction::List => StateActionModel::List,
        }
    }
}

/// Which state action a payload encodes, if any: a unit action is a plain tag
/// string, a keyed action is a single-entry object whose entry holds the
/// action's fields.
pub open spec fn spec_parse_state_action(p: ValModel) -> Option<StateActionModel> {
    match p {
        ValModel::Str(s) => if s == "Clear"@ {
            Some(StateActionModel::Clear)
        } else if s == "List"@ {
            Some(StateActionModel::List)
        } else {
            None
        },
        ValModel::Obj(pairs) => if pairs.len() == 1 {
            spec_parse_tagged_action(pairs[0].0, pairs[0].1)
        } else {
            None
        },
        _ => None,
    }
}

/// The keyed action encoded by one tag/body pair.
pub open spec fn spec_parse_tagged_action(tag: Seq<char>, body: ValModel) -> Option<
    StateActionModel,
> {
    if tag == "Store"@ {
        match (body.get_field("key"@), body.get_field("value"@)) {
            (Some(k), Some(v)) => match k.as_text() {
                Some(ks) => Some(StateActionModel::Store(ks, v)),
                None => None,
            },
            _ => None,
        }
    } else if tag == "Get"@ {
        match body.get_field("key"@) {
            Some(k) => match k.as_text() {
                Some(ks) => Some(StateActionModel::Get(ks)),
                None => None,
            },
            None => None,
        }
    } else if tag == "Delete"@ {
        match body.get_field("key"@) {
            Some(k) => match k.as_text() {
                Some(ks) => Some(StateActionModel::Delete(ks)),
                None => None,
            },
            None => None,
        }
    } else {
        None
    }
}

/// Recognizes a state action in a payload.
pub fn parse_state_action(payload: &Value) -> (r: Option<StateAction>)
    ensures
        match r {
            Some(a) => spec_parse_state_action(payload@) == Some(a@),
            None => spec_parse_state_action(payload@) is None,
        },
{
    match payload {
        Value::Str(s) => {
            if str_eq(s.as_str(), "Clear") {
                Some(StateAction::Clear)
            } else if str_eq(s.as_str(), "List") {
                Some(StateAction::List)
            } else {
                None
            }
        },
        Value::Obj(pairs) => {
            if pairs.len() != 1 {
                proof {
                    crate::value::lemma_obj_model(pairs@);
                }
                return None;
            }
            proof {
                crate::value::lemma_obj_model(pairs@);
            }
            let tag = &pairs[0].0;
            let body = &pairs[0].1;
            if str_eq(tag.as_str(), "Store") {
                match body.get("key") {
                    Some(k) => match k.as_str() {
                        Some(ks) => match body.get("value") {
                            Some(v) => Some(
                                StateAction::Store { key: ks.to_owned(), value: v.deep_copy() },
                            ),
                            None => None,
                        },
                        None => None,
                    },
                    None => None,
                }
            } else if str_eq(tag.as_str(), "Get") {
                match body.get("key") {
                    Some(k) => match k.as_str() {
                        Some(ks) => Some(StateAction::Get { key: ks.to_owned() }),
                        None => None,
                    },
                    None => None,
                }
            } else if str_eq(tag.as_str(), "Delete") {
                match body.get("key") {
                    Some(k) => match k.as_str() {
                        Some(ks) => Some(StateAction::Delete { key: ks.to_owned() }),
                        None => None,
                    },
                    None => None,
                }
            } else {
                None
            }
        },
        _ => None,
    }
}

/// A lightweight agent handle.
#[derive(Debug)]
pub struct Agent {
    pub id: AgentId,
}

impl Agent {
    pub fn new(id: String) -> (r: Self)
        ensures
            r.id@ == id@,
    {
        Agent { id: AgentId(id) }
    }

    pub fn get_id(&self) -> (r: &AgentId)
        ensures
            r@ == self.id@,
    {
        &self.id
    }
}

/// The persistent-namespace prefix of one agent.
pub open spec fn key_prefix(id: Seq<char>) -> Seq<char> {
    id + ":"@
}

/// The persistent key that mirrors ephemeral key `key` of agent `id`.
pub open spec fn persist_key(id: Seq<char>, key: Seq<char>) -> Seq<char> {
    key_prefix(id) + key
}

/// The ephemeral image of a persistent namespace: all entries under `prefix`,
/// with the prefix stripped.
pub open spec fn load_image(pb: Map<Seq<char>, ValModel>, prefix: Seq<char>) -> Map<
    Seq<char>,
    ValModel,
> {
    Map::new(|k: Seq<char>| pb.contains_key(prefix + k), |k: Seq<char>| pb[prefix + k])
}

/// The state key a regular message from `from` is stored under: the last
/// message from each sender overwrites the sender's previous one.
pub open spec fn last_msg_key(from: Seq<char>) -> Seq<char> {
    "last_message_from_"@ + from
}

/// The transport subject a message to agent `to` is forwarded on.
pub open spec fn agent_subject(to: Seq<char>) -> Seq<char> {
    "agent."@ + to
}

/// The `type` tag of a payload, if it carries one as a string field.
pub open spec fn type_field(p: ValModel) -> Option<Seq<char>> {
    match p.get_field("type"@) {
        Some(v) => v.as_text(),
        None => None,
    }
}

/// Whether `kk` is not the persistent mirror of any key of `eph`.
pub open spec fn outside_saved_range(
    eph: Map<Seq<char>, ValModel>,
    id: Seq<char>,
    kk: Seq<char>,
) -> bool {
    forall|k: Seq<char>| #[trigger] eph.contains_key(k) ==> kk != persist_key(id, k)
}

/// The per-agent state store: the ephemeral cache is the read authority and
/// every mutation is written through to the persistent backend.
pub struct AgentState<B: MemoryBackend> {
    pub id: AgentId,
    pub ephemeral_state: KvMap<Value>,
    pub persistent_backend: B,
    pub transport_enabled: bool,
}

impl<B: MemoryBackend> AgentState<B> {
    /// Well-formedness: both tiers are usable. `new` establishes it and every
    /// method preserves it.
    pub open spec fn wf(&self) -> bool {
        self.ephemeral_state.wf() && self.persistent_backend.inv()
    }

    /// The identity, transport setting, and the backend's reliability never
    /// change under state methods.
    pub open spec fn same_config(&self, other: &Self) -> bool {
        &&& self.id@ == other.id@
        &&& self.transport_enabled == other.transport_enabled
        &&& self.persistent_backend.reliable() == other.persistent_backend.reliable()
    }

    pub fn new(id: AgentId, persistent_backend: B) -> (r: Self)
        requires
            persistent_backend.inv(),
        ensures
            r.wf(),
            r.id@ == id@,
            r.ephemeral_state@ == Map::<Seq<char>, ValModel>::empty(),
            r.persistent_backend == persistent_backend,
            !r.transport_enabled,
    {
        AgentState {
            id,
            ephemeral_state: KvMap::new(),
            persistent_backend,
            transport_enabled: false,
        }
    }

    /// Marks the agent as connected to the message transport, so that
    /// messages for other agents are forwarded rather than dropped.
    pub fn with_transport(self) -> (r: Self)
        ensures
            r.id@ == self.id@,
            r.ephemeral_state == self.ephemeral_state,
            r.persistent_backend == self.persistent_backend,
            r.transport_enabled,
    {
        AgentState { transport_enabled: true, ..self }
    }

    pub fn get_id(&self) -> (r: &AgentId)
        ensures
            r@ == self.id@,
    {
        &self.id
    }

    /// The persistent key that mirrors ephemeral key `key`.
    fn make_persist_key(&self, key: &str) -> (r: String)
        ensures
            r@ == persist_key(self.id@, key@),
    {
        concat3(self.id.0.as_str(), ":", key)
    }

    /// Ephemeral write, then persistent write-through. A backend failure is
    /// reported but does not un-write the ephemeral value.
    pub fn store(&mut self, key: &str, value: Value) -> (r: Result<(), Error>)
        requires
            old(self).wf(),
        ensures
            final(self).wf(),
            final(self).same_config(old(self)),
            final(self).ephemeral_state@ == old(self).ephemeral_state@.insert(key@, value@),
            old(self).persistent_backend.reliable() ==> r is Ok,
            r is Ok ==> final(self).persistent_backend.contents() == old(
                self,
            ).persistent_backend.contents().insert(persist_key(old(self).id@, key@), value@),
            r is Err ==> final(self).persistent_backend.contents() == old(
                self,
            ).persistent_backend.contents(),
    {
        let pkey = self.make_persist_key(key);
        self.ephemeral_state.insert(key.to_owned(), value.deep_copy());
        self.persistent_backend.store(pkey.as_str(), &value)
    }

    /// Ephemeral read; on a miss, a persistent read that populates the cache.
    /// A persistent failure is treated as a miss: the ephemeral view stays
    /// the read authority and `get` never reports an error.
    pub fn get(&mut self, key: &str) -> (r: Option<Value>)
        requires
            old(self).wf(),
        ensures
            final(self).wf(),
            final(self).same_config(old(self)),
            final(self).persistent_backend.contents() == old(self).persistent_backend.contents(),
            old(self).ephemeral_state@.contains_key(key@) ==> final(self).ephemeral_state@ == old(
                self,
            ).ephemeral_state@ && (r matches Some(v) && v@ == old(self).ephemeral_state@[key@]),
            !old(self).ephemeral_state@.contains_key(key@) ==> match r {
                Some(v) => old(self).persistent_backend.contents().contains_key(
                    persist_key(old(self).id@, key@),
                ) && v@ == old(self).persistent_backend.contents()[persist_key(old(self).id@, key@)]
                    && final(self).ephemeral_state@ == old(self).ephemeral_state@.insert(key@, v@),
                None => final(self).ephemeral_state@ == old(self).ephemeral_state@,
            },
            (old(self).persistent_backend.reliable() && !old(
                self,
            ).ephemeral_state@.contains_key(key@) && old(
                self,
            ).persistent_backend.contents().contains_key(persist_key(old(self).id@, key@)))
                ==> r is Some,
            (old(self).persistent_backend.reliable() && !old(
                self,
            ).persistent_backend.contents().contains_key(persist_key(old(self).id@, key@)) && !old(
                self,
            ).ephemeral_state@.contains_key(key@)) ==> r is None,
    {
        let cached = self.ephemeral_state.get(key);
        match cached {
            Some(v) => {
                let r = v.deep_copy();
                Some(r)
            },
            None => {
                let pkey = self.make_persist_key(key);
                match self.persistent_backend.retrieve(pkey.as_str()) {
                    Ok(Some(v)) => {
                        let out = v.deep_copy();
                        self.ephemeral_state.insert(key.to_owned(), v);
                        Some(out)
                    },
                    Ok(None) => None,
                    Err(_) => None,
                }
            },
        }
    }

    /// Removes the key from both tiers; deleting an absent key is not an
    /// error. A backend failure is reported; the ephemeral removal stands.
    pub fn delete(&mut self, key: &str) -> (r: Result<(), Error>)
        requires
            old(self).wf(),
        ensures
            final(self).wf(),
            final(self).same_config(old(self)),
            final(self).ephemeral_state@ == old(self).ephemeral_state@.remove(key@),
            old(self).persistent_backend.reliable() ==> r is Ok,
            r is Ok ==> final(self).persistent_backend.contents() == old(
                self,
            ).persistent_backend.contents().remove(persist_key(old(self).id@, key@)),
            r is Err ==> final(self).persistent_backend.contents() == old(
                self,
            ).persistent_backend.contents(),
    {
        let pkey = self.make_persist_key(key);
        let _ = self.ephemeral_state.remove(key);
        match self.persistent_backend.delete(pkey.as_str()) {
            Ok(_) => Ok(()),
            Err(e) => Err(e),
        }
    }

    /// Wipes both tiers entirely.
    pub fn clear(&mut self) -> (r: Result<(), Error>)
        requires
            old(self).wf(),
        ensures
            final(self).wf(),
            final(self).same_config(old(self)),
            final(self).ephemeral_state@ == Map::<Seq<char>, ValModel>::empty(),
            old(self).persistent_backend.reliable() ==> r is Ok,
            r is Ok ==> final(self).persistent_backend.contents() == Map::<
                Seq<char>,
                ValModel,
            >::empty(),
            r is Err ==> final(self).persistent_backend.contents() == old(
                self,
            ).persistent_backend.contents(),
    {
        self.ephemeral_state.clear();
        self.persistent_backend.clear()
    }

    /// Applies one state action. `Get` and `List` are side-effect-free on the
    /// backend and never report an error.
    pub fn handle_state_action(&mut self, action: StateAction) -> (r: Result<(), Error>)
        requires
            old(self).wf(),
        ensures
            final(self).wf(),
            final(self).same_config(old(self)),
            old(self).persistent_backend.reliable() ==> r is Ok,
            action_applied(*old(self), *final(self), action@, r is Ok),
    {
        match action {
            StateAction::Store { key, value } => self.store(key.as_str(), value),
            StateAction::Get { key } => {
                let _ = self.get(key.as_str());
                Ok(())
            },
            StateAction::Delete { key } => self.delete(key.as_str()),
            StateAction::Clear => self.clear(),
            StateAction::List => {
                let _ = self.ephemeral_state.keys();
                Ok(())
            },
        }
    }
}

impl<B: MemoryBackend> AgentState<B> {
    /// Startup only: enumerates the persistent keys under this agent's
    /// namespace, strips the prefix, and populates the ephemeral view.
    #[verifier::loop_isolation(false)]
    #[verifier::rlimit(50)]
    pub fn load_persistent_state(&mut self) -> (r: Result<(), Error>)
        requires
            old(self).wf(),
        ensures
            final(self).wf(),
            final(self).same_config(old(self)),
            final(self).persistent_backend.contents() == old(self).persistent_backend.contents(),
            old(self).persistent_backend.reliable() ==> r is Ok,
            r is Ok ==> final(self).ephemeral_state@ == old(
                self,
            ).ephemeral_state@.union_prefer_right(
                load_image(old(self).persistent_backend.contents(), key_prefix(old(self).id@)),
            ),
    {
        let prefix = concat2(self.id.0.as_str(), ":");
        let ghost p = key_prefix(old(self).id@);
        let ghost pb = self.persistent_backend.contents();
        let ghost old_eph = self.ephemeral_state@;
        let keys = match self.persistent_backend.list_keys(Some(prefix.as_str())) {
            Ok(keys) => keys,
            Err(e) => { return Err(e) },
        };
        proof {
            assert(forall|j: int|
                0 <= j < keys@.len() ==> pb.contains_key((#[trigger] keys@[j])@) && prefix_matches(
                    keys@[j]@,
                    Some(p),
                ));
            assert(forall|kk: Seq<char>|
                #[trigger] pb.contains_key(kk) && prefix_matches(kk, Some(p)) ==> exists|j: int|
                    0 <= j < keys@.len() && (#[trigger] keys@[j])@ == kk);
        }
        let n = keys.len();
        let mut i: usize = 0;
        while i < n
            invariant
                self.wf(),
                self.id@ == old(self).id@,
                self.transport_enabled == old(self).transport_enabled,
                self.persistent_backend.reliable() == old(self).persistent_backend.reliable(),
                self.persistent_backend.contents() == pb,
                n == keys@.len(),
                i <= n,
                forall|j: int|
                    0 <= j < i ==> self.ephemeral_state@.contains_key(
                        (#[trigger] keys@[j])@.skip(p.len() as int),
                    ) && self.ephemeral_state@[keys@[j]@.skip(p.len() as int)] == pb[keys@[j]@],
                forall|kk: Seq<char>|
                    (forall|j: int| 0 <= j < i ==> (#[trigger] keys@[j])@.skip(p.len() as int) != kk)
                        ==> ((#[trigger] self.ephemeral_state@.contains_key(kk))
                        == old_eph.contains_key(kk) && (old_eph.contains_key(kk)
                        ==> self.ephemeral_state@[kk] == old_eph[kk])),
            decreases n - i,
        {
            let key = &keys[i];
            let local = suffix_after(key.as_str(), prefix.as_str());
            let local_owned = local.to_owned();
            let v = match self.persistent_backend.retrieve(key.as_str()) {
                Ok(found) => match found {
                    Some(v) => v,
                    None => {
                        proof {
                            assert(pb.contains_key(keys@[i as int]@));
                            assert(false);
                        }
                        Value::Null
                    },
                },
                Err(e) => { return Err(e) },
            };
            let ghost eph0 = self.ephemeral_state@;
            let ghost vm = v@;
            self.ephemeral_state.insert(local_owned, v);
            proof {
                lemma_prefix_recompose(p, keys@[i as int]@);
                assert(self.ephemeral_state@ == eph0.insert(
                    keys@[i as int]@.skip(p.len() as int),
                    vm,
                ));
                assert forall|j: int|
                    0 <= j < i + 1 implies self.ephemeral_state@.contains_key(
                    (#[trigger] keys@[j])@.skip(p.len() as int),
                ) && self.ephemeral_state@[keys@[j]@.skip(p.len() as int)] == pb[keys@[j]@] by {
                    if j < i {
                        if keys@[j]@.skip(p.len() as int) == keys@[i as int]@.skip(p.len() as int) {
                            lemma_prefix_recompose(p, keys@[j]@);
                            assert(keys@[j]@ == keys@[i as int]@);
                        }
                    }
                }
                assert forall|kk: Seq<char>|
                    (forall|j: int|
                        0 <= j < i + 1 ==> (#[trigger] keys@[j])@.skip(p.len() as int)
                            != kk) implies ((self.ephemeral_state@.contains_key(kk))
                    == old_eph.contains_key(kk) && (old_eph.contains_key(kk)
                    ==> self.ephemeral_state@[kk] == old_eph[kk])) by {
                    assert(forall|j: int|
                        0 <= j < i ==> (#[trigger] keys@[j])@.skip(p.len() as int) != kk);
                    assert(eph0.contains_key(kk) == old_eph.contains_key(kk));
                    assert(old_eph.contains_key(kk) ==> eph0[kk] == old_eph[kk]);
                    assert(keys@[i as int]@.skip(p.len() as int) != kk);
                }
            }
            i += 1;
        }
        proof {
            let target = old_eph.union_prefer_right(load_image(pb, p));
            assert forall|kk: Seq<char>| #[trigger] self.ephemeral_state@.contains_key(
                kk,
            ) implies target.contains_key(kk) && self.ephemeral_state@[kk] == target[kk] by {
                if exists|j: int|
                    0 <= j < n && (#[trigger] keys@[j])@.skip(p.len() as int) == kk {
                    let j = choose|j: int|
                        0 <= j < n && (#[trigger] keys@[j])@.skip(p.len() as int) == kk;
                    lemma_prefix_recompose(p, keys@[j]@);
                    assert(keys@[j]@ == p + kk);
                    assert(pb.contains_key(p + kk));
                    assert(load_image(pb, p).contains_key(kk));
                    assert(self.ephemeral_state@[kk] == pb[p + kk]);
                } else {
                    assert(old_eph.contains_key(kk) && self.ephemeral_state@[kk] == old_eph[kk]);
                    if pb.contains_key(p + kk) {
                        lemma_concat_parts(p, kk);
                        assert(prefix_matches(p + kk, Some(p)));
                        let j = choose|j: int|
                            0 <= j < keys@.len() && (#[trigger] keys@[j])@ == p + kk;
                        assert(keys@[j]@.skip(p.len() as int) == kk);
                        assert(false);
                    }
                    assert(!load_image(pb, p).contains_key(kk));
                }
            }
            assert forall|kk: Seq<char>| #[trigger] target.contains_key(
                kk,
            ) implies self.ephemeral_state@.contains_key(kk) by {
                if load_image(pb, p).contains_key(kk) {
                    lemma_concat_parts(p, kk);
                    let j = choose|j: int|
                        0 <= j < keys@.len() && (#[trigger] keys@[j])@ == p + kk;
                    assert(keys@[j]@.skip(p.len() as int) == kk);
                    assert(self.ephemeral_state@.contains_key(kk));
                } else {
                    assert(old_eph.contains_key(kk));
                    if !(exists|j: int|
                        0 <= j < n && (#[trigger] keys@[j])@.skip(p.len() as int) == kk) {
                        assert(self.ephemeral_state@.contains_key(kk) == old_eph.contains_key(kk));
                    }
                }
            }
            assert(self.ephemeral_state@ =~= target);
        }
        Ok(())
    }

    /// Shutdown only: writes every ephemeral entry through to the persistent
    /// backend under this agent's namespace.
    #[verifier::loop_isolation(false)]
    pub fn save_persistent_state(&mut self) -> (r: Result<(), Error>)
        requires
            old(self).wf(),
        ensures
            final(self).wf(),
            final(self).same_config(old(self)),
            final(self).ephemeral_state == old(self).ephemeral_state,
            old(self).persistent_backend.reliable() ==> r is Ok,
            r is Ok ==> (forall|k: Seq<char>|
                #[trigger] old(self).ephemeral_state@.contains_key(k)
                    ==> final(self).persistent_backend.contents().contains_key(
                    persist_key(old(self).id@, k),
                ) && final(self).persistent_backend.contents()[persist_key(old(self).id@, k)]
                    == old(self).ephemeral_state@[k]),
            r is Ok ==> (forall|kk: Seq<char>|
                outside_saved_range(old(self).ephemeral_state@, old(self).id@, kk) ==> ((
                #[trigger] final(self).persistent_backend.contents().contains_key(kk)) == old(
                    self,
                ).persistent_backend.contents().contains_key(kk) && (old(
                    self,
                ).persistent_backend.contents().contains_key(kk) ==> final(self).persistent_backend.contents()[kk] == old(self).persistent_backend.contents()[kk]))),
    {
        proof {
            self.ephemeral_state.lemma_entries();
        }
        let ghost entries = self.ephemeral_state.entries();
        let ghost old_pb = self.persistent_backend.contents();
        let ghost idv = self.id@;
        let n = self.ephemeral_state.len();
        let mut i: usize = 0;
        while i < n
            invariant
                self.persistent_backend.inv(),
                self.ephemeral_state == old(self).ephemeral_state,
                self.id@ == old(self).id@,
                self.transport_enabled == old(self).transport_enabled,
                self.persistent_backend.reliable() == old(self).persistent_backend.reliable(),
                n == entries.len(),
                i <= n,
                forall|e: int|
                    0 <= e < i ==> self.persistent_backend.contents().contains_key(
                        persist_key(idv, (#[trigger] entries[e]).0),
                    ) && self.persistent_backend.contents()[persist_key(idv, entries[e].0)]
                        == entries[e].1,
                forall|kk: Seq<char>|
                    (forall|e: int|
                        0 <= e < i ==> kk != persist_key(idv, (#[trigger] entries[e]).0)) ==> ((
                    #[trigger] self.persistent_backend.contents().contains_key(kk))
                        == old_pb.contains_key(kk) && (old_pb.contains_key(kk)
                        ==> self.persistent_backend.contents()[kk] == old_pb[kk])),
            decreases n - i,
        {
            let key = self.ephemeral_state.key_at(i);
            let pkey = concat3(self.id.0.as_str(), ":", key.as_str());
            let value = self.ephemeral_state.value_at(i);
            let ghost pb0 = self.persistent_backend.contents();
            match self.persistent_backend.store(pkey.as_str(), value) {
                Ok(_) => {},
                Err(e) => { return Err(e) },
            }
            proof {
                assert(self.persistent_backend.contents() == pb0.insert(
                    persist_key(idv, entries[i as int].0),
                    entries[i as int].1,
                ));
                assert forall|e: int|
                    0 <= e < i + 1 implies self.persistent_backend.contents().contains_key(
                    persist_key(idv, (#[trigger] entries[e]).0),
                ) && self.persistent_backend.contents()[persist_key(idv, entries[e].0)]
                    == entries[e].1 by {
                    if e < i {
                        if persist_key(idv, entries[e].0) == persist_key(
                            idv,
                            entries[i as int].0,
                        ) {
                            lemma_prefix_injective(
                                key_prefix(idv),
                                entries[e].0,
                                entries[i as int].0,
                            );
                            assert(false);
                        }
                    }
                }
                assert forall|kk: Seq<char>|
                    (forall|e: int|
                        0 <= e < i + 1 ==> kk != persist_key(
                            idv,
                            (#[trigger] entries[e]).0,
                        )) implies ((self.persistent_backend.contents().contains_key(kk))
                    == old_pb.contains_key(kk) && (old_pb.contains_key(kk)
                    ==> self.persistent_backend.contents()[kk] == old_pb[kk])) by {
                    assert(forall|e: int|
                        0 <= e < i ==> kk != persist_key(idv, (#[trigger] entries[e]).0));
                    assert((pb0.contains_key(kk)) == old_pb.contains_key(kk) && (
                    old_pb.contains_key(kk) ==> pb0[kk] == old_pb[kk]));
                    assert(kk != persist_key(idv, entries[i as int].0));
                }
            }
            i += 1;
        }
        proof {
            assert forall|k: Seq<char>| #[trigger] old(self).ephemeral_state@.contains_key(
                k,
            ) implies self.persistent_backend.contents().contains_key(persist_key(old(self).id@, k))
                && self.persistent_backend.contents()[persist_key(old(self).id@, k)] == old(
                self,
            ).ephemeral_state@[k] by {
                let e = choose|e: int|
                    0 <= e < entries.len() && (#[trigger] entries[e]).0 == k;
                assert(self.persistent_backend.contents().contains_key(
                    persist_key(idv, entries[e].0),
                ));
            }
            assert forall|kk: Seq<char>|
                outside_saved_range(old(self).ephemeral_state@, old(self).id@, kk) implies ((
            self.persistent_backend.contents().contains_key(kk)) == old_pb.contains_key(kk) && (
            old_pb.contains_key(kk) ==> self.persistent_backend.contents()[kk]
                == old_pb[kk])) by {
                assert forall|e: int| 0 <= e < n implies kk != persist_key(
                    idv,
                    (#[trigger] entries[e]).0,
                ) by {
                    assert(old(self).ephemeral_state@.contains_key(entries[e].0));
                }
            }
        }
        Ok(())
    }
}

/// What one state action does to the two tiers: `ok` is whether the backend
/// half succeeded; the ephemeral effect stands either way.
pub open spec fn action_applied<B: MemoryBackend>(
    pre: AgentState<B>,
    post: AgentState<B>,
    a: StateActionModel,
    ok: bool,
) -> bool {
    match a {
        StateActionModel::Store(k, v) => {
            &&& post.ephemeral_state@ == pre.ephemeral_state@.insert(k, v)
            &&& ok ==> post.persistent_backend.contents()
                == pre.persistent_backend.contents().insert(persist_key(pre.id@, k), v)
            &&& !ok ==> post.persistent_backend.contents() == pre.persistent_backend.contents()
        },
        StateActionModel::Get(k) => {
            &&& ok
            &&& post.persistent_backend.contents() == pre.persistent_backend.contents()
            &&& (pre.ephemeral_state@.contains_key(k) ==> post.ephemeral_state@
                == pre.ephemeral_state@)
            &&& (!pre.ephemeral_state@.contains_key(k) ==> (post.ephemeral_state@
                == pre.ephemeral_state@ || (pre.persistent_backend.contents().contains_key(
                persist_key(pre.id@, k),
            ) && post.ephemeral_state@ == pre.ephemeral_state@.insert(
                k,
                pre.persistent_backend.contents()[persist_key(pre.id@, k)],
            ))))
            &&& (pre.persistent_backend.reliable() && !pre.ephemeral_state@.contains_key(k)
                && pre.persistent_backend.contents().contains_key(persist_key(pre.id@, k)))
                ==> post.ephemeral_state@ == pre.ephemeral_state@.insert(
                k,
                pre.persistent_backend.contents()[persist_key(pre.id@, k)],
            )
        },
        StateActionModel::Delete(k) => {
            &&& post.ephemeral_state@ == pre.ephemeral_state@.remove(k)
            &&& ok ==> post.persistent_backend.contents()
                == pre.persistent_backend.contents().remove(persist_key(pre.id@, k))
            &&& !ok ==> post.persistent_backend.contents() == pre.persistent_backend.contents()
        },
        StateActionModel::Clear => {
            &&& post.ephemeral_state@ == Map::<Seq<char>, ValModel>::empty()
            &&& ok ==> post.persistent_backend.contents() == Map::<Seq<char>, ValModel>::empty()
            &&& !ok ==> post.persistent_backend.contents() == pre.persistent_backend.contents()
        },
        StateActionModel::List => {
            &&& ok
            &&& post.ephemeral_state@ == pre.ephemeral_state@
            &&& post.persistent_backend.contents() == pre.persistent_backend.contents()
        },
    }
}

/// What processing a regular application message from `from` with payload `p`
/// does: the payload is stored under the sender's key; a `data_update` also
/// caches its `data` field; a `shutdown` ends processing with an error after
/// a best-effort save.
pub open spec fn regular_applied<B: MemoryBackend>(
    pre: AgentState<B>,
    post: AgentState<B>,
    from: Seq<char>,
    p: ValModel,
    ok: bool,
) -> bool {
    let eph1 = pre.ephemeral_state@.insert(last_msg_key(from), p);
    &&& (type_field(p) == Some("data_update"@) ==> {
        &&& match p.get_field("data"@) {
            Some(d) => post.ephemeral_state@ == eph1.insert("received_data"@, d),
            None => post.ephemeral_state@ == eph1,
        }
        &&& ok
        &&& post.persistent_backend.contents() == pre.persistent_backend.contents()
    })
    &&& (type_field(p) == Some("shutdown"@) ==> {
        &&& post.ephemeral_state@ == eph1
        &&& !ok
        &&& (pre.persistent_backend.reliable() ==> (forall|k: Seq<char>|
            #[trigger] eph1.contains_key(k) ==> post.persistent_backend.contents().contains_key(
                persist_key(pre.id@, k),
            ) && post.persistent_backend.contents()[persist_key(pre.id@, k)] == eph1[k]))
    })
    &&& ((type_field(p) != Some("data_update"@) && type_field(p) != Some("shutdown"@)) ==> {
        &&& post.ephemeral_state@ == eph1
        &&& ok
        &&& post.persistent_backend.contents() == pre.persistent_backend.contents()
    })
}

/// How one inbound message was routed.
#[derive(Debug)]
pub enum Routed {
    /// The payload was a state action and was applied directly.
    StateApplied,
    /// The message was for another agent; hand it to the transport on
    /// `subject`.
    Forwarded { subject: String, message: Message },
    /// The message was for another agent and no transport is configured.
    Dropped,
    /// The message was processed locally as an application message.
    Applied,
}

impl<B: MemoryBackend> AgentState<B> {
    /// Stores the payload under the sender's key and applies the payload's
    /// `type`-specific effect. A `shutdown` type saves the ephemeral view
    /// best-effort and then reports an error, which ends the message loop.
    #[verifier::rlimit(50)]
    pub fn process_application_message(&mut self, message: &Message) -> (r: Result<(), Error>)
        requires
            old(self).wf(),
        ensures
            final(self).wf(),
            final(self).same_config(old(self)),
            regular_applied(*old(self), *final(self), message.from@, message.payload@, r is Ok),
    {
        proof {
            reveal_strlit("data_update");
            reveal_strlit("shutdown");
            assert("data_update"@.len() == 11);
            assert("shutdown"@.len() == 8);
        }
        let key = concat2("last_message_from_", message.from.0.as_str());
        self.ephemeral_state.insert(key, message.payload.deep_copy());
        match message.payload.get("type") {
            Some(tv) => match tv.as_str() {
                Some(ts) => {
                    if str_eq(ts, "data_update") {
                        match message.payload.get("data") {
                            Some(d) => {
                                let dc = d.deep_copy();
                                self.ephemeral_state.insert("received_data".to_owned(), dc);
                                Ok(())
                            },
                            None => Ok(()),
                        }
                    } else if str_eq(ts, "shutdown") {
                        match self.save_persistent_state() {
                            Ok(_) => Err(Error::Custom("Shutdown requested".to_owned())),
                            Err(e) => Err(e),
                        }
                    } else {
                        Ok(())
                    }
                },
                None => Ok(()),
            },
            None => Ok(()),
        }
    }

    /// Routes one inbound message: a state-action payload is applied
    /// directly; otherwise a message for another agent is never applied
    /// locally — it is forwarded when a transport is configured and dropped
    /// when not — and a message for this agent is processed as an
    /// application message.
    pub fn handle_message(&mut self, message: Message) -> (r: Result<Routed, Error>)
        requires
            old(self).wf(),
        ensures
            final(self).wf(),
            final(self).same_config(old(self)),
            match spec_parse_state_action(message.payload@) {
                Some(a) => action_applied(*old(self), *final(self), a, r is Ok) && (r is Err
                    || r matches Ok(Routed::StateApplied)),
                None => if message.to@ != old(self).id@ {
                    &&& final(self).ephemeral_state@ == old(self).ephemeral_state@
                    &&& final(self).persistent_backend.contents() == old(
                        self,
                    ).persistent_backend.contents()
                    &&& r is Ok
                    &&& old(self).transport_enabled ==> (r matches Ok(Routed::Forwarded {
                        subject,
                        message: m,
                    }) && subject@ == agent_subject(message.to@) && m == message)
                    &&& !old(self).transport_enabled ==> r matches Ok(Routed::Dropped)
                } else {
                    regular_applied(
                        *old(self),
                        *final(self),
                        message.from@,
                        message.payload@,
                        r is Ok,
                    ) && (r is Err || r matches Ok(Routed::Applied))
                },
            },
    {
        match parse_state_action(&message.payload) {
            Some(action) => match self.handle_state_action(action) {
                Ok(_) => Ok(Routed::StateApplied),
                Err(e) => Err(e),
            },
            None => {
                if !str_eq(message.to.0.as_str(), self.id.0.as_str()) {
                    if self.transport_enabled {
                        let subject = concat2("agent.", message.to.0.as_str());
                        Ok(Routed::Forwarded { subject, message })
                    } else {
                        Ok(Routed::Dropped)
                    }
                } else {
                    match self.process_application_message(&message) {
                        Ok(_) => Ok(Routed::Applied),
                        Err(e) => Err(e),
                    }
                }
            },
        }
    }
}

/// Last writer wins: after `store(k, v1)` then `store(k, v2)`, the ephemeral
/// view — the read authority that `get` answers from — holds `v2` under `k`.
pub proof fn lemma_store_last_writer_wins(
    eph: Map<Seq<char>, ValModel>,
    k: Seq<char>,
    v1: ValModel,
    v2: ValModel,
)
    ensures
        eph.insert(k, v1).insert(k, v2).contains_key(k),
        eph.insert(k, v1).insert(k, v2)[k] == v2,
        eph.insert(k, v1).insert(k, v2) =~= eph.insert(k, v2),
{
}

/// `delete` then `get` misses, and a second `delete` changes nothing: the
/// ephemeral view after one or two removals of `k` is the same and lacks `k`.
pub proof fn lemma_delete_idempotent(eph: Map<Seq<char>, ValModel>, k: Seq<char>)
    ensures
        !eph.remove(k).contains_key(k),
        eph.remove(k).remove(k) =~= eph.remove(k),
{
}

/// Round trip: after `save_persistent_state` reports success (the premise is
/// its postcondition), wiping the ephemeral view and running
/// `load_persistent_state` restores every key/value pair: each pair of the
/// saved view is in the loaded image with its value, so the loaded view —
/// the empty view joined with that image — holds it too.
pub proof fn lemma_save_then_load_restores(
    eph: Map<Seq<char>, ValModel>,
    pb: Map<Seq<char>, ValModel>,
    id: Seq<char>,
)
    requires
        forall|k: Seq<char>|
            #[trigger] eph.contains_key(k) ==> pb.contains_key(persist_key(id, k)) && pb[persist_key(
                id,
                k,
            )] == eph[k],
    ensures
        forall|k: Seq<char>|
            #[trigger] eph.contains_key(k) ==> load_image(pb, key_prefix(id)).contains_key(k)
                && load_image(pb, key_prefix(id))[k] == eph[k],
        forall|k: Seq<char>|
            #[trigger] eph.contains_key(k) ==> Map::<Seq<char>, ValModel>::empty(
            ).union_prefer_right(load_image(pb, key_prefix(id))).contains_key(k) && Map::<
                Seq<char>,
                ValModel,
            >::empty().union_prefer_right(load_image(pb, key_prefix(id)))[k] == eph[k],
{
    assert forall|k: Seq<char>| #[trigger] eph.contains_key(k) implies load_image(
        pb,
        key_prefix(id),
    ).contains_key(k) && load_image(pb, key_prefix(id))[k] == eph[k] by {
        assert(persist_key(id, k) == key_prefix(id) + k);
    }
}

} // verus!
