use vstd::prelude::*;

use postcard_schema::schema::owned::OwnedNamedType;

use crate::context::HostErr;
use crate::key::Key;

verus! {

#[verifier::external_type_specification]
#[verifier::external_body]
pub struct ExOwnedNamedType(OwnedNamedType);

/// The key a peer derives from a path and a type description.
pub uninterp spec fn owned_schema_key(path: Seq<char>, ty: OwnedNamedType) -> Seq<u8>;

/// Relies on postcard_schema's `Key::for_owned_schema_path`: the key a peer
/// derives from a path and a type description, a function of the two alone.
#[verifier::external_body]
fn key_for_type(path: &str, ty: &OwnedNamedType) -> (r: Key)
    ensures
        r@ == owned_schema_key(path@, *ty),
{
    Key(postcard_schema::key::Key::for_owned_schema_path(path, ty).to_bytes())
}

/// Relies on the derived `PartialEq` of postcard_schema's `OwnedNamedType`:
/// whether two type descriptions are the same.
#[verifier::external_body]
fn same_type(a: &OwnedNamedType, b: &OwnedNamedType) -> (r: bool)
    ensures
        r == (*a == *b),
{
    a == b
}

/// Direction of a topic.
#[derive(Clone, Copy, Debug, PartialEq, Eq, Structural)]
pub enum TopicDirection {
    /// From the host to the peer.
    ToServer,
    /// From the peer to the host.
    ToClient,
}

/// One fragment of the peer's report on its schemas.
pub enum SchemaFragment {
    /// A type it uses.
    Type(OwnedNamedType),
    /// An endpoint, with the keys of its request and response.
    Endpoint { path: String, request_key: Key, response_key: Key },
    /// A topic, with its key and direction.
    Topic { path: String, key: Key, direction: TopicDirection },
}

/// The peer's own count of what it sent.
#[derive(Clone, Copy, Debug, PartialEq, Eq, Structural)]
pub struct SchemaTotals {
    pub endpoints_sent: u32,
    pub topics_in_sent: u32,
    pub topics_out_sent: u32,
    pub errors: u32,
}

/// A topic found in the report; `ty` indexes the report's types.
pub struct TopicReport {
    pub path: String,
    pub key: Key,
    pub ty: usize,
}

/// An endpoint found in the report; `req_ty` and `resp_ty` index the
/// report's types.
pub struct EndpointReport {
    pub path: String,
    pub req_key: Key,
    pub req_ty: usize,
    pub resp_key: Key,
    pub resp_ty: usize,
}

/// No known type gives the key that the peer advertised.
#[derive(Clone, Copy, Debug, PartialEq, Eq, Structural)]
pub struct UnableToFindType;

/// Why gathering the schema report failed.
#[derive(Debug)]
pub enum SchemaError<WireErr> {
    /// The request for the report failed.
    Comms(HostErr<WireErr>),
    /// The task gathering the fragments failed.
    TaskError,
    /// A fragment named a key that no known type gives.
    InvalidReportData,
    /// Fewer or more items came than the peer says it sent, or it had errors.
    LostData,
}

/// Index of the first key in `keys` equal to `k`, or the length when none is.
pub open spec fn key_index(keys: Seq<Key>, k: Seq<u8>) -> int
    decreases keys.len(),
{
    if keys.len() == 0 {
        0
    } else if keys[0]@ == k {
        0
    } else {
        1 + key_index(keys.drop_first(), k)
    }
}

pub proof fn lemma_key_index(keys: Seq<Key>, k: Seq<u8>)
    ensures
        0 <= key_index(keys, k) <= keys.len(),
        forall|j: int| 0 <= j < key_index(keys, k) ==> (#[trigger] keys[j])@ != k,
        key_index(keys, k) < keys.len() ==> keys[key_index(keys, k)]@ == k,
        forall|j: int| 0 <= j < keys.len() && (#[trigger] keys[j])@ == k ==> key_index(keys, k) <= j,
    decreases keys.len(),
{
    if keys.len() > 0 && keys[0]@ != k {
        lemma_key_index(keys.drop_first(), k);
        assert forall|j: int| 0 < j < keys.len() implies #[trigger] keys[j] == keys.drop_first()[j - 1] by {}
    }
}

/// Index of the first type in `types` whose key under `path` is `k`, or the
/// length when none is.
pub open spec fn type_index(types: Seq<OwnedNamedType>, path: Seq<char>, k: Seq<u8>) -> int
    decreases types.len(),
{
    if types.len() == 0 {
        0
    } else if owned_schema_key(path, types[0]) == k {
        0
    } else {
        1 + type_index(types.drop_first(), path, k)
    }
}

/// The type that a fragment resolves to carries the advertised key, and no
/// earlier type does.
pub proof fn lemma_type_index(types: Seq<OwnedNamedType>, path: Seq<char>, k: Seq<u8>)
    ensures
        0 <= type_index(types, path, k) <= types.len(),
        forall|j: int| 0 <= j < type_index(types, path, k) ==> owned_schema_key(path, #[trigger] types[j]) != k,
        type_index(types, path, k) < types.len() ==> owned_schema_key(path, types[type_index(types, path, k)]) == k,
    decreases types.len(),
{
    if types.len() > 0 && owned_schema_key(path, types[0]) != k {
        lemma_type_index(types.drop_first(), path, k);
        assert forall|j: int| 0 < j < types.len() implies #[trigger] types[j] == types.drop_first()[j - 1] by {}
    }
}

proof fn lemma_key_index_is_type_index(keys: Seq<Key>, types: Seq<OwnedNamedType>, path: Seq<char>, k: Seq<u8>)
    requires
        keys.len() == types.len(),
        forall|i: int| 0 <= i < keys.len() ==> (#[trigger] keys[i])@ == owned_schema_key(path, types[i]),
    ensures
        key_index(keys, k) == type_index(types, path, k),
    decreases keys.len(),
{
    if keys.len() > 0 {
        assert(keys[0]@ == owned_schema_key(path, types[0]));
        let (k2, t2) = (keys.drop_first(), types.drop_first());
        assert forall|i: int| 0 <= i < k2.len() implies (#[trigger] k2[i])@ == owned_schema_key(path, t2[i]) by {
            assert(k2[i] == keys[i + 1]);
            assert(t2[i] == types[i + 1]);
        }
        lemma_key_index_is_type_index(k2, t2, path, k);
    }
}

/// Which known type a key belongs to: given the key each known type gives
/// under the fragment's path, the index of the first that equals `key`.
pub fn find_type(keys: &Vec<Key>, key: &Key) -> (r: Option<usize>)
    ensures
        key_index(keys@, key@) == keys@.len() ==> r is None,
        key_index(keys@, key@) < keys@.len() ==> (r matches Some(i) && i == key_index(keys@, key@)),
{
    proof {
        lemma_key_index(keys@, key@);
    }
    let mut i: usize = 0;
    while i < keys.len()
        invariant
            i <= keys@.len(),
            forall|j: int| 0 <= j < i ==> (#[trigger] keys@[j])@ != key@,
            key_index(keys@, key@) >= i,
            0 <= key_index(keys@, key@) <= keys@.len(),
            key_index(keys@, key@) < keys@.len() ==> keys@[key_index(keys@, key@)]@ == key@,
            forall|j: int| 0 <= j < keys@.len() && (#[trigger] keys@[j])@ == key@ ==> key_index(keys@, key@) <= j,
        decreases keys@.len() - i,
    {
        if keys[i].same_as(key) {
            return Some(i);
        }
        i = i + 1;
    }
    None
}

/// Resolve a topic fragment, given the key each known type gives under its
/// path: it takes the first type whose key is the advertised one.
pub fn resolve_topic(path: String, key: Key, keys: &Vec<Key>) -> (r: Result<TopicReport, UnableToFindType>)
    ensures
        key_index(keys@, key@) == keys@.len() ==> r is Err,
        key_index(keys@, key@) < keys@.len() ==> (r matches Ok(t) && t.path@ == path@),
        key_index(keys@, key@) < keys@.len() ==> (r matches Ok(t) && t.key == key),
        key_index(keys@, key@) < keys@.len() ==> (r matches Ok(t) && t.ty == key_index(keys@, key@)),
{
    proof {
        lemma_key_index(keys@, key@);
    }
    match find_type(keys, &key) {
        Some(ty) => Ok(TopicReport { path, key, ty }),
        None => Err(UnableToFindType),
    }
}

/// Resolve an endpoint fragment, given the key each known type gives under
/// its path: request and response each take the first type whose key is
/// theirs.
pub fn resolve_endpoint(path: String, req_key: Key, resp_key: Key, keys: &Vec<Key>) -> (r: Result<EndpointReport, UnableToFindType>)
    ensures
        (key_index(keys@, req_key@) == keys@.len() || key_index(keys@, resp_key@) == keys@.len()) ==> r is Err,
        key_index(keys@, req_key@) < keys@.len() && key_index(keys@, resp_key@) < keys@.len() ==> (r matches Ok(e)
            && e.path@ == path@ && e.req_key == req_key && e.resp_key == resp_key
            && e.req_ty == key_index(keys@, req_key@) && e.resp_ty == key_index(keys@, resp_key@)),
{
    proof {
        lemma_key_index(keys@, req_key@);
        lemma_key_index(keys@, resp_key@);
    }
    let req_ty = match find_type(keys, &req_key) {
        Some(i) => i,
        None => {
            return Err(UnableToFindType);
        },
    };
    let resp_ty = match find_type(keys, &resp_key) {
        Some(i) => i,
        None => {
            return Err(UnableToFindType);
        },
    };
    Ok(EndpointReport { path, req_key, req_ty, resp_key, resp_ty })
}

/// The peer's catalogue: the types it uses (seeded with the primitive ones),
/// its topics in both directions and its endpoints.
pub struct SchemaReport {
    pub types: Vec<OwnedNamedType>,
    pub topics_in: Vec<TopicReport>,
    pub topics_out: Vec<TopicReport>,
    pub endpoints: Vec<EndpointReport>,
}

impl SchemaReport {
    /// A report that knows the given types and nothing else yet.
    pub fn with_types(types: Vec<OwnedNamedType>) -> (r: SchemaReport)
        ensures
            r.types@ == types@,
            r.topics_in@.len() == 0,
            r.topics_out@.len() == 0,
            r.endpoints@.len() == 0,
    {
        SchemaReport { types, topics_in: Vec::new(), topics_out: Vec::new(), endpoints: Vec::new() }
    }

    /// Add a type unless the same one is known; true when it was added.
    pub fn add_type(&mut self, t: OwnedNamedType) -> (r: bool)
        ensures
            r == !old(self).types@.contains(t),
            r ==> final(self).types@ == old(self).types@.push(t),
            !r ==> final(self).types@ == old(self).types@,
            old(self).types@.no_duplicates() ==> final(self).types@.no_duplicates(),
            final(self).topics_in@ == old(self).topics_in@,
            final(self).topics_out@ == old(self).topics_out@,
            final(self).endpoints@ == old(self).endpoints@,
    {
        let mut i: usize = 0;
        while i < self.types.len()
            invariant
                i <= self.types@.len(),
                forall|j: int| 0 <= j < i ==> self.types@[j] != t,
            decreases self.types@.len() - i,
        {
            if same_type(&self.types[i], &t) {
                assert(self.types@[i as int] == t);
                return false;
            }
            i = i + 1;
        }
        assert(!self.types@.contains(t));
        self.types.push(t);
        true
    }

    /// The key each known type gives under `path`, in the order of `types`.
    fn type_keys(&self, path: &str) -> (r: Vec<Key>)
        ensures
            r@.len() == self.types@.len(),
            forall|i: int| 0 <= i < r@.len() ==> (#[trigger] r@[i])@ == owned_schema_key(path@, self.types@[i]),
    {
        let mut keys: Vec<Key> = Vec::new();
        let mut i: usize = 0;
        while i < self.types.len()
            invariant
                i <= self.types@.len(),
                keys@.len() == i,
                forall|j: int| 0 <= j < i ==> (#[trigger] keys@[j])@ == owned_schema_key(path@, self.types@[j]),
            decreases self.types@.len() - i,
        {
            keys.push(key_for_type(path, &self.types[i]));
            i = i + 1;
        }
        keys
    }

    /// Add a topic towards the peer, resolved against the known types.
    pub fn add_topic_in(&mut self, path: String, key: Key) -> (r: Result<(), UnableToFindType>)
        ensures
            final(self).types@ == old(self).types@,
            final(self).topics_out@ == old(self).topics_out@,
            final(self).endpoints@ == old(self).endpoints@,
            ({
                let i = type_index(old(self).types@, path@, key@);
                &&& i == old(self).types@.len() ==> r is Err && final(self).topics_in@ == old(self).topics_in@
                &&& i < old(self).types@.len() ==> {
                    &&& r is Ok
                    &&& final(self).topics_in@.drop_last() == old(self).topics_in@
                    &&& final(self).topics_in@.len() == old(self).topics_in@.len() + 1
                    &&& final(self).topics_in@.last().path@ == path@
                    &&& final(self).topics_in@.last().key == key
                    &&& final(self).topics_in@.last().ty == i
                }
            }),
    {
        let keys = self.type_keys(path.as_str());
        proof {
            lemma_key_index(keys@, key@);
            lemma_type_index(self.types@, path@, key@);
            lemma_key_index_is_type_index(keys@, self.types@, path@, key@);
        }
        let t = resolve_topic(path, key, &keys)?;
        self.topics_in.push(t);
        assert(self.topics_in@.drop_last() =~= old(self).topics_in@);
        Ok(())
    }

    /// Add a topic from the peer, resolved against the known types.
    pub fn add_topic_out(&mut self, path: String, key: Key) -> (r: Result<(), UnableToFindType>)
        ensures
            final(self).types@ == old(self).types@,
            final(self).topics_in@ == old(self).topics_in@,
            final(self).endpoints@ == old(self).endpoints@,
            ({
                let i = type_index(old(self).types@, path@, key@);
                &&& i == old(self).types@.len() ==> r is Err && final(self).topics_out@ == old(self).topics_out@
                &&& i < old(self).types@.len() ==> {
                    &&& r is Ok
                    &&& final(self).topics_out@.drop_last() == old(self).topics_out@
                    &&& final(self).topics_out@.len() == old(self).topics_out@.len() + 1
                    &&& final(self).topics_out@.last().path@ == path@
                    &&& final(self).topics_out@.last().key == key
                    &&& final(self).topics_out@.last().ty == i
                }
            }),
    {
        let keys = self.type_keys(path.as_str());
        proof {
            lemma_key_index(keys@, key@);
            lemma_type_index(self.types@, path@, key@);
            lemma_key_index_is_type_index(keys@, self.types@, path@, key@);
        }
        let t = resolve_topic(path, key, &keys)?;
        self.topics_out.push(t);
        assert(self.topics_out@.drop_last() =~= old(self).topics_out@);
        Ok(())
    }

    /// Add an endpoint, its request and response types resolved against the
    /// known types.
    pub fn add_endpoint(&mut self, path: String, req_key: Key, resp_key: Key) -> (r: Result<(), UnableToFindType>)
        ensures
            final(self).types@ == old(self).types@,
            final(self).topics_in@ == old(self).topics_in@,
            final(self).topics_out@ == old(self).topics_out@,
            ({
                let i = type_index(old(self).types@, path@, req_key@);
                let j = type_index(old(self).types@, path@, resp_key@);
                let n = old(self).types@.len();
                &&& (i == n || j == n) ==> r is Err && final(self).endpoints@ == old(self).endpoints@
                &&& (i < n && j < n) ==> {
                    &&& r is Ok
                    &&& final(self).endpoints@.drop_last() == old(self).endpoints@
                    &&& final(self).endpoints@.len() == old(self).endpoints@.len() + 1
                    &&& final(self).endpoints@.last().path@ == path@
                    &&& final(self).endpoints@.last().req_key == req_key
                    &&& final(self).endpoints@.last().resp_key == resp_key
                    &&& final(self).endpoints@.last().req_ty == i
                    &&& final(self).endpoints@.last().resp_ty == j
                }
            }),
    {
        let keys = self.type_keys(path.as_str());
        proof {
            lemma_key_index(keys@, req_key@);
            lemma_key_index(keys@, resp_key@);
            lemma_type_index(self.types@, path@, req_key@);
            lemma_type_index(self.types@, path@, resp_key@);
            lemma_key_index_is_type_index(keys@, self.types@, path@, req_key@);
            lemma_key_index_is_type_index(keys@, self.types@, path@, resp_key@);
        }
        let e = resolve_endpoint(path, req_key, resp_key, &keys)?;
        self.endpoints.push(e);
        assert(self.endpoints@.drop_last() =~= old(self).endpoints@);
        Ok(())
    }
}

/// Whether the report holds exactly what the peer says it sent, and the
/// peer had no errors.
pub open spec fn totals_agree(t: SchemaTotals, endpoints: nat, topics_in: nat, topics_out: nat) -> bool {
    &&& t.endpoints_sent as nat == endpoints
    &&& t.topics_in_sent as nat == topics_in
    &&& t.topics_out_sent as nat == topics_out
    &&& t.errors == 0
}

/// Compare the counts of a report with the peer's totals.
pub fn check_totals(t: &SchemaTotals, endpoints: usize, topics_in: usize, topics_out: usize) -> (r: bool)
    ensures
        r == totals_agree(*t, endpoints as nat, topics_in as nat, topics_out as nat),
{
    t.endpoints_sent as u64 == endpoints as u64
        && t.topics_in_sent as u64 == topics_in as u64
        && t.topics_out_sent as u64 == topics_out as u64
        && t.errors == 0
}

/// Combine the outcome of the request for the peer's totals with that of
/// the task gathering fragments: a failed request wins, then a failed task.
pub fn join_outcomes<W, D>(request: Result<SchemaTotals, HostErr<W>>, gathered: Result<D, ()>) -> (r: Result<(SchemaTotals, D), SchemaError<W>>)
    ensures
        match (request, gathered) {
            (Ok(t), Ok(d)) => r == Ok::<(SchemaTotals, D), SchemaError<W>>((t, d)),
            (Ok(_), Err(_)) => r == Err::<(SchemaTotals, D), SchemaError<W>>(SchemaError::TaskError),
            (Err(e), _) => r == Err::<(SchemaTotals, D), SchemaError<W>>(SchemaError::Comms(e)),
        },
{
    match (request, gathered) {
        (Ok(t), Ok(d)) => Ok((t, d)),
        (Ok(_), Err(_)) => Err(SchemaError::TaskError),
        (Err(e), _) => Err(SchemaError::Comms(e)),
    }
}

/// The types known after taking in fragment `f`: a type not yet known is
/// appended.
pub open spec fn with_type(types: Seq<OwnedNamedType>, f: SchemaFragment) -> Seq<OwnedNamedType> {
    match f {
        SchemaFragment::Type(t) => if types.contains(t) { types } else { types.push(t) },
        _ => types,
    }
}

/// The types known after taking in every type fragment of `s`, in order.
pub open spec fn types_after(types: Seq<OwnedNamedType>, s: Seq<SchemaFragment>) -> Seq<OwnedNamedType>
    decreases s.len(),
{
    if s.len() == 0 {
        types
    } else {
        with_type(types_after(types, s.drop_last()), s.last())
    }
}

/// Taking in type fragments never yields the same type twice: a repeated
/// type fragment leaves the known types as a single copy would.
pub proof fn lemma_types_after_no_duplicates(types: Seq<OwnedNamedType>, s: Seq<SchemaFragment>)
    requires
        types.no_duplicates(),
    ensures
        types_after(types, s).no_duplicates(),
        forall|i: int| 0 <= i < s.len() ==> (#[trigger] s[i] matches SchemaFragment::Type(t)
            ==> types_after(types, s).contains(t)),
    decreases s.len(),
{
    if s.len() > 0 {
        let p = s.drop_last();
        lemma_types_after_no_duplicates(types, p);
        let before = types_after(types, p);
        assert forall|i: int| 0 <= i < s.len() implies (#[trigger] s[i] matches SchemaFragment::Type(t)
            ==> types_after(types, s).contains(t)) by {
            if i < s.len() - 1 {
                assert(s[i] == p[i]);
                if let SchemaFragment::Type(t) = s[i] {
                    let j = choose|j: int| 0 <= j < before.len() && before[j] == t;
                    assert(types_after(types, s)[j] == t);
                }
            } else {
                if let SchemaFragment::Type(t) = s[i] {
                    if !before.contains(t) {
                        assert(types_after(types, s)[before.len() as int] == t);
                    }
                }
            }
        }
    }
}

/// Whether fragment `f` names only keys that some type of `types` gives.
pub open spec fn resolves(types: Seq<OwnedNamedType>, f: SchemaFragment) -> bool {
    match f {
        SchemaFragment::Type(_) => true,
        SchemaFragment::Endpoint { path, request_key, response_key } => {
            &&& type_index(types, path@, request_key@) < types.len()
            &&& type_index(types, path@, response_key@) < types.len()
        },
        SchemaFragment::Topic { path, key, .. } => type_index(types, path@, key@) < types.len(),
    }
}

/// Whether every fragment of `s` resolves against `types`.
pub open spec fn all_resolve(types: Seq<OwnedNamedType>, s: Seq<SchemaFragment>) -> bool
    decreases s.len(),
{
    if s.len() == 0 {
        true
    } else {
        all_resolve(types, s.drop_last()) && resolves(types, s.last())
    }
}

/// An endpoint entry as plain values: path, request key and type index,
/// response key and type index.
pub open spec fn endpoint_entry(e: EndpointReport) -> (Seq<char>, Seq<u8>, int, Seq<u8>, int) {
    (e.path@, e.req_key@, e.req_ty as int, e.resp_key@, e.resp_ty as int)
}

/// A topic entry as plain values: path, key and type index.
pub open spec fn topic_entry(t: TopicReport) -> (Seq<char>, Seq<u8>, int) {
    (t.path@, t.key@, t.ty as int)
}

/// The endpoint entries that the endpoint fragments of `s` give, in order,
/// each resolved against `types`.
pub open spec fn endpoint_entries(types: Seq<OwnedNamedType>, s: Seq<SchemaFragment>) -> Seq<(Seq<char>, Seq<u8>, int, Seq<u8>, int)>
    decreases s.len(),
{
    if s.len() == 0 {
        Seq::empty()
    } else {
        let before = endpoint_entries(types, s.drop_last());
        match s.last() {
            SchemaFragment::Endpoint { path, request_key, response_key } => before.push((
                path@,
                request_key@,
                type_index(types, path@, request_key@),
                response_key@,
                type_index(types, path@, response_key@),
            )),
            _ => before,
        }
    }
}

/// The topic entries that the topic fragments of direction `dir` in `s`
/// give, in order, each resolved against `types`.
pub open spec fn topic_entries(types: Seq<OwnedNamedType>, s: Seq<SchemaFragment>, dir: TopicDirection) -> Seq<(Seq<char>, Seq<u8>, int)>
    decreases s.len(),
{
    if s.len() == 0 {
        Seq::empty()
    } else {
        let before = topic_entries(types, s.drop_last(), dir);
        match s.last() {
            SchemaFragment::Topic { path, key, direction } => if direction == dir {
                before.push((path@, key@, type_index(types, path@, key@)))
            } else {
                before
            },
            _ => before,
        }
    }
}

/// Fold the gathered fragments into `base`: first every type, then every
/// endpoint and topic, each resolved against the types now known. The fold
/// fails with `InvalidReportData` exactly when some fragment names a key
/// that no known type gives; otherwise it succeeds exactly when the report
/// holds as many endpoints and topics as the peer says it sent, and had no
/// errors, and fails with `LostData` when not.
pub fn build_report<W>(base: SchemaReport, data: Vec<SchemaFragment>, totals: SchemaTotals) -> (r: Result<SchemaReport, SchemaError<W>>)
    ensures
        ({
            let types = types_after(base.types@, data@);
            let eps = base.endpoints@.map_values(|e: EndpointReport| endpoint_entry(e))
                + endpoint_entries(types, data@);
            let tin = base.topics_in@.map_values(|t: TopicReport| topic_entry(t))
                + topic_entries(types, data@, TopicDirection::ToServer);
            let tout = base.topics_out@.map_values(|t: TopicReport| topic_entry(t))
                + topic_entries(types, data@, TopicDirection::ToClient);
            let agree = totals_agree(totals, eps.len(), tin.len(), tout.len());
            &&& !all_resolve(types, data@) ==> (r matches Err(e) && e is InvalidReportData)
            &&& all_resolve(types, data@) && !agree ==> (r matches Err(e) && e is LostData)
            &&& all_resolve(types, data@) && agree ==> (r matches Ok(rep) && {
                &&& rep.types@ == types
                &&& rep.endpoints@.map_values(|e: EndpointReport| endpoint_entry(e)) == eps
                &&& rep.topics_in@.map_values(|t: TopicReport| topic_entry(t)) == tin
                &&& rep.topics_out@.map_values(|t: TopicReport| topic_entry(t)) == tout
            })
        }),
{
    let ghost orig = data@;
    let ghost base_types = base.types@;
    let mut rpt = base;
    let mut pending = data;
    let mut rest: Vec<SchemaFragment> = Vec::new();
    let ghost mut taken: Seq<SchemaFragment> = Seq::empty();
    while pending.len() > 0
        invariant
            orig == taken + pending@,
            orig == data@,
            rpt.types@ == types_after(base_types, taken),
            rpt.endpoints@ == base.endpoints@,
            rpt.topics_in@ == base.topics_in@,
            rpt.topics_out@ == base.topics_out@,
            forall|ts: Seq<OwnedNamedType>| #[trigger] endpoint_entries(ts, taken) == endpoint_entries(ts, rest@),
            forall|ts: Seq<OwnedNamedType>, dir: TopicDirection|
                #[trigger] topic_entries(ts, taken, dir) == topic_entries(ts, rest@, dir),
            forall|ts: Seq<OwnedNamedType>| #[trigger] all_resolve(ts, taken) == all_resolve(ts, rest@),
        decreases pending@.len(),
    {
        let ghost before = pending@;
        let d = pending.remove(0);
        assert(pending@ =~= before.drop_first());
        assert(before[0] == d);
        let ghost t2 = taken.push(d);
        assert(orig =~= t2 + pending@);
        assert(t2.drop_last() =~= taken);
        let ghost rest_before = rest@;
        match d {
            SchemaFragment::Type(t) => {
                rpt.add_type(t);
            },
            other => {
                rest.push(other);
                assert(rest@.drop_last() =~= rest_before);
            },
        }
        proof {
            assert forall|ts: Seq<OwnedNamedType>| #[trigger] endpoint_entries(ts, t2) == endpoint_entries(ts, rest@) by {
                assert(endpoint_entries(ts, taken) == endpoint_entries(ts, rest_before));
            }
            assert forall|ts: Seq<OwnedNamedType>, dir: TopicDirection|
                #[trigger] topic_entries(ts, t2, dir) == topic_entries(ts, rest@, dir) by {
                assert(topic_entries(ts, taken, dir) == topic_entries(ts, rest_before, dir));
            }
            assert forall|ts: Seq<OwnedNamedType>| #[trigger] all_resolve(ts, t2) == all_resolve(ts, rest@) by {
                assert(all_resolve(ts, taken) == all_resolve(ts, rest_before));
            }
            taken = t2;
        }
    }
    assert(taken =~= orig);
    let ghost types = rpt.types@;
    let ghost rest0 = rest@;
    let ghost base_eps = base.endpoints@.map_values(|e: EndpointReport| endpoint_entry(e));
    let ghost base_tin = base.topics_in@.map_values(|t: TopicReport| topic_entry(t));
    let ghost base_tout = base.topics_out@.map_values(|t: TopicReport| topic_entry(t));
    let ghost mut done: Seq<SchemaFragment> = Seq::empty();
    assert(rpt.endpoints@.map_values(|e: EndpointReport| endpoint_entry(e)) =~= base_eps + endpoint_entries(types, done));
    assert(rpt.topics_in@.map_values(|t: TopicReport| topic_entry(t)) =~= base_tin + topic_entries(types, done, TopicDirection::ToServer));
    assert(rpt.topics_out@.map_values(|t: TopicReport| topic_entry(t)) =~= base_tout + topic_entries(types, done, TopicDirection::ToClient));
    assert(rest0 =~= done + rest@);
    assert(endpoint_entries(types, orig) == endpoint_entries(types, rest0));
    assert(topic_entries(types, orig, TopicDirection::ToServer) == topic_entries(types, rest0, TopicDirection::ToServer));
    assert(topic_entries(types, orig, TopicDirection::ToClient) == topic_entries(types, rest0, TopicDirection::ToClient));
    assert(all_resolve(types, orig) == all_resolve(types, rest0));
    while rest.len() > 0
        invariant
            rest0 == done + rest@,
            orig == data@,
            types == types_after(base_types, orig),
            base_types == base.types@,
            endpoint_entries(types, orig) == endpoint_entries(types, rest0),
            topic_entries(types, orig, TopicDirection::ToServer) == topic_entries(types, rest0, TopicDirection::ToServer),
            topic_entries(types, orig, TopicDirection::ToClient) == topic_entries(types, rest0, TopicDirection::ToClient),
            all_resolve(types, orig) == all_resolve(types, rest0),
            rpt.types@ == types,
            all_resolve(types, done),
            rpt.endpoints@.map_values(|e: EndpointReport| endpoint_entry(e)) == base_eps + endpoint_entries(types, done),
            rpt.topics_in@.map_values(|t: TopicReport| topic_entry(t)) == base_tin + topic_entries(types, done, TopicDirection::ToServer),
            rpt.topics_out@.map_values(|t: TopicReport| topic_entry(t)) == base_tout + topic_entries(types, done, TopicDirection::ToClient),
        decreases rest@.len(),
    {
        let ghost before = rest@;
        let d = rest.remove(0);
        assert(rest@ =~= before.drop_first());
        assert(before[0] == d);
        let ghost d2 = done.push(d);
        let ghost dg = d;
        assert(rest0 =~= d2 + rest@);
        assert(d2.drop_last() =~= done);
        let ghost eps_before = rpt.endpoints@;
        let ghost tin_before = rpt.topics_in@;
        let ghost tout_before = rpt.topics_out@;
        match d {
            SchemaFragment::Type(_) => {},
            SchemaFragment::Endpoint { path, request_key, response_key } => {
                proof {
                    lemma_type_index(types, path@, request_key@);
                    lemma_type_index(types, path@, response_key@);
                }
                if rpt.add_endpoint(path, request_key, response_key).is_err() {
                    proof {
                        lemma_all_resolve_prefix(types, rest0, d2.len() as int);
                        assert(rest0.take(d2.len() as int) =~= d2);
                        assert(!resolves(types, dg));
                        assert(d2.last() == dg);
                        assert(!all_resolve(types, d2));
                        assert(!all_resolve(types, rest0));
                        assert(!all_resolve(types, orig));
                    }
                    return Err(SchemaError::InvalidReportData);
                }
                assert(rpt.endpoints@ =~= eps_before.push(rpt.endpoints@.last()));
                assert(rpt.endpoints@.map_values(|e: EndpointReport| endpoint_entry(e))
                    =~= eps_before.map_values(|e: EndpointReport| endpoint_entry(e)).push(endpoint_entry(rpt.endpoints@.last())));
            },
            SchemaFragment::Topic { path, key, direction } => {
                proof {
                    lemma_type_index(types, path@, key@);
                }
                match direction {
                    TopicDirection::ToServer => {
                        if rpt.add_topic_in(path, key).is_err() {
                            proof {
                                lemma_all_resolve_prefix(types, rest0, d2.len() as int);
                                assert(rest0.take(d2.len() as int) =~= d2);
                                assert(!resolves(types, dg));
                                assert(d2.last() == dg);
                                assert(!all_resolve(types, d2));
                            }
                            return Err(SchemaError::InvalidReportData);
                        }
                        assert(rpt.topics_in@ =~= tin_before.push(rpt.topics_in@.last()));
                        assert(rpt.topics_in@.map_values(|t: TopicReport| topic_entry(t))
                            =~= tin_before.map_values(|t: TopicReport| topic_entry(t)).push(topic_entry(rpt.topics_in@.last())));
                    },
                    TopicDirection::ToClient => {
                        if rpt.add_topic_out(path, key).is_err() {
                            proof {
                                lemma_all_resolve_prefix(types, rest0, d2.len() as int);
                                assert(rest0.take(d2.len() as int) =~= d2);
                                assert(!resolves(types, dg));
                                assert(d2.last() == dg);
                                assert(!all_resolve(types, d2));
                            }
                            return Err(SchemaError::InvalidReportData);
                        }
                        assert(rpt.topics_out@ =~= tout_before.push(rpt.topics_out@.last()));
                        assert(rpt.topics_out@.map_values(|t: TopicReport| topic_entry(t))
                            =~= tout_before.map_values(|t: TopicReport| topic_entry(t)).push(topic_entry(rpt.topics_out@.last())));
                    },
                }
            },
        }
        proof {
            done = d2;
        }
    }
    assert(done =~= rest0);
    if check_totals(&totals, rpt.endpoints.len(), rpt.topics_in.len(), rpt.topics_out.len()) {
        Ok(rpt)
    } else {
        Err(SchemaError::LostData)
    }
}

/// A sequence all of whose fragments resolve has every prefix resolving.
proof fn lemma_all_resolve_prefix(types: Seq<OwnedNamedType>, s: Seq<SchemaFragment>, n: int)
    requires
        0 <= n <= s.len(),
    ensures
        all_resolve(types, s) ==> all_resolve(types, s.take(n)),
    decreases s.len() - n,
{
    if n < s.len() {
        lemma_all_resolve_prefix(types, s, n + 1);
        assert(s.take(n + 1).drop_last() =~= s.take(n));
    } else {
        assert(s.take(n) =~= s);
    }
}

} // verus!
