use vstd::prelude::*;

use lru_cache::LruCache;

use crate::ids::{parse_id, parsed_id};
use crate::keyed::{first_key_index, has_key, is_first_key, keys_distinct, lemma_first_key, value_at};
use crate::schema_registry::types::{Schema, SchemaModel, SchemaType};

verus! {

#[verifier::external_type_specification]
#[verifier::external_body]
#[verifier::reject_recursive_types(K)]
#[verifier::reject_recursive_types(V)]
#[verifier::reject_recursive_types(S)]
pub struct ExLruCache<K: Eq + std::hash::Hash, V, S: std::hash::BuildHasher>(LruCache<K, V, S>);

/// What an LRU cache of schemas holds: its entries from the least to the most recently used.
pub uninterp spec fn cache_entries(c: LruCache<u128, Schema>) -> Seq<(u128, SchemaModel)>;

/// The number of entries that an LRU cache of schemas was made to hold.
pub uninterp spec fn cache_capacity(c: LruCache<u128, Schema>) -> nat;

/// The entries after a use of a key: its entry, if any, becomes the most recently used.
pub open spec fn touched(s: Seq<(u128, SchemaModel)>, k: u128) -> Seq<(u128, SchemaModel)> {
    if has_key(s, k) {
        let i = first_key_index(s, k);
        s.remove(i).push(s[i])
    } else {
        s
    }
}

/// The entries after putting a value under a key: the key's old entry goes, the new one
/// becomes the most recently used, and, where that makes more entries than the capacity,
/// the least recently used goes.
pub open spec fn put(s: Seq<(u128, SchemaModel)>, k: u128, v: SchemaModel, capacity: nat) -> Seq<
    (u128, SchemaModel),
> {
    let kept = if has_key(s, k) {
        s.remove(first_key_index(s, k))
    } else {
        s
    };
    let added = kept.push((k, v));
    if added.len() > capacity {
        added.drop_first()
    } else {
        added
    }
}

/// `LruCache::new`.
///
/// Trusted: the cache is empty and keeps the capacity.
#[verifier::external_body]
fn lru_new(capacity: usize) -> (r: LruCache<u128, Schema>)
    ensures
        cache_entries(r) == Seq::<(u128, SchemaModel)>::empty(),
        cache_capacity(r) == capacity,
{
    LruCache::new(capacity)
}

/// `LruCache::contains_key`, which looks the key up with `get_mut`.
///
/// Trusted: as the crate's source shows, the result says whether the key has an entry, and
/// that entry becomes the most recently used.
#[verifier::external_body]
fn lru_contains(c: &mut LruCache<u128, Schema>, k: u128) -> (r: bool)
    ensures
        r == has_key(cache_entries(*old(c)), k),
        cache_entries(*final(c)) == touched(cache_entries(*old(c)), k),
        cache_capacity(*final(c)) == cache_capacity(*old(c)),
{
    c.contains_key(&k)
}

/// `LruCache::get_mut`, handing out a copy of the value.
///
/// Trusted: as the crate's source shows, the result is the value of the key's entry, if any,
/// and that entry becomes the most recently used.
#[verifier::external_body]
fn lru_get(c: &mut LruCache<u128, Schema>, k: u128) -> (r: Option<Schema>)
    ensures
        r is Some == has_key(cache_entries(*old(c)), k),
        r matches Some(s) ==> s@ == value_at(cache_entries(*old(c)), k),
        cache_entries(*final(c)) == touched(cache_entries(*old(c)), k),
        cache_capacity(*final(c)) == cache_capacity(*old(c)),
{
    match c.get_mut(&k) {
        Some(s) => Some(
            Schema {
                id: s.id,
                name: s.name.clone(),
                insert_destination: s.insert_destination.clone(),
                query_address: s.query_address.clone(),
                schema_type: s.schema_type,
            },
        ),
        None => None,
    }
}

/// `LruCache::insert`.
///
/// Trusted: as the crate's source shows, the entries become `put` of the old ones, and the
/// result is the key's old value, if any.
#[verifier::external_body]
fn lru_insert(c: &mut LruCache<u128, Schema>, k: u128, v: Schema) -> (r: Option<Schema>)
    ensures
        cache_entries(*final(c)) == put(cache_entries(*old(c)), k, v@, cache_capacity(*old(c))),
        cache_capacity(*final(c)) == cache_capacity(*old(c)),
        r is Some == has_key(cache_entries(*old(c)), k),
        r matches Some(o) ==> o@ == value_at(cache_entries(*old(c)), k),
{
    c.insert(k, v)
}

/// Why the cache could not give a schema or keep up with changes.
#[derive(Debug, PartialEq)]
pub enum CacheError {
    /// The registry could not be reached (its message).
    Connection(String),
    /// The registry refused a request (its message).
    Registry(String),
    /// The stream of schema changes broke (its message).
    UpdateReceive(String),
    /// A schema's id does not read as an identifier.
    MalformedSchema,
    /// A schema's type number is unknown.
    InvalidSchemaType(i32),
    /// The schema is not in the cache after it was fetched.
    MissingSchema,
}

/// A schema as the registry sends it: its id as text, its metadata, its type number.
#[derive(Debug)]
pub struct SchemaMessage {
    pub id: String,
    pub name: String,
    pub query_address: String,
    pub insert_destination: String,
    pub schema_type: i32,
}

/// The metadata of a schema as the registry sends it.
#[derive(Debug)]
pub struct SchemaMetadata {
    pub name: String,
    pub query_address: String,
    pub insert_destination: String,
    pub schema_type: i32,
}

/// The type with a wire number.
pub open spec fn schema_type_of(n: i32) -> Option<SchemaType> {
    if n == 0 {
        Some(SchemaType::DocumentStorage)
    } else if n == 1 {
        Some(SchemaType::Timeseries)
    } else {
        None
    }
}

/// What to do after a message of the stream of schema changes.
#[derive(Debug, PartialEq)]
pub enum UpdateStep {
    /// Wait for the next change.
    Continue,
    /// Stop following the changes, reporting the error where there is one.
    Stop(Option<CacheError>),
}

/// Cached schema metadata, the least recently used going first when it is full.
pub struct SchemaCache {
    schemas: LruCache<u128, Schema>,
    schema_registry_addr: String,
}

impl SchemaCache {
    pub closed spec fn wf(&self) -> bool {
        &&& keys_distinct(cache_entries(self.schemas))
        &&& cache_entries(self.schemas).len() <= cache_capacity(self.schemas)
    }

    /// The cached schemas, from the least to the most recently used.
    pub closed spec fn entries(&self) -> Seq<(u128, SchemaModel)> {
        cache_entries(self.schemas)
    }

    /// The address of the schema registry that fills the cache.
    pub closed spec fn registry_addr(&self) -> Seq<char> {
        self.schema_registry_addr@
    }

    /// The address of the schema registry that fills the cache.
    pub fn schema_registry_addr(&self) -> (r: &str)
        ensures
            r@ == self.registry_addr(),
    {
        self.schema_registry_addr.as_str()
    }

    /// How many schemas the cache holds at most.
    pub closed spec fn capacity(&self) -> nat {
        cache_capacity(self.schemas)
    }

    /// An empty cache for at most `capacity` schemas.
    pub fn new(schema_registry_addr: String, capacity: usize) -> (r: SchemaCache)
        ensures
            r.wf(),
            r.entries() == Seq::<(u128, SchemaModel)>::empty(),
            r.capacity() == capacity,
            r.registry_addr() == schema_registry_addr@,
    {
        SchemaCache { schemas: lru_new(capacity), schema_registry_addr }
    }

    /// A schema read from the registry's message: the id must read as an identifier, and the
    /// type number be known.
    pub fn parse_schema(schema: SchemaMessage) -> (r: Result<Schema, CacheError>)
        ensures
            match parsed_id(schema.id@) {
                None => r == Err::<Schema, CacheError>(CacheError::MalformedSchema),
                Some(id) => match schema_type_of(schema.schema_type) {
                    None => r == Err::<Schema, CacheError>(
                        CacheError::InvalidSchemaType(schema.schema_type),
                    ),
                    Some(t) => r matches Ok(s) && s@ == (SchemaModel {
                        id,
                        name: schema.name@,
                        insert_destination: schema.insert_destination@,
                        query_address: schema.query_address@,
                        schema_type: t,
                    }),
                },
            },
    {
        let id = match parse_id(schema.id.as_str()) {
            Some(id) => id,
            None => {
                return Err(CacheError::MalformedSchema);
            },
        };
        let schema_type = match SchemaType::from_number(schema.schema_type) {
            Some(t) => t,
            None => {
                return Err(CacheError::InvalidSchemaType(schema.schema_type));
            },
        };
        Ok(
            Schema {
                id,
                name: schema.name,
                query_address: schema.query_address,
                insert_destination: schema.insert_destination,
                schema_type,
            },
        )
    }

    /// The schema of an id from the metadata the registry sent for it.
    pub fn schema_from_metadata(id: u128, metadata: SchemaMetadata) -> (r: Result<Schema, CacheError>)
        ensures
            match schema_type_of(metadata.schema_type) {
                None => r == Err::<Schema, CacheError>(
                    CacheError::InvalidSchemaType(metadata.schema_type),
                ),
                Some(t) => r matches Ok(s) && s@ == (SchemaModel {
                    id,
                    name: metadata.name@,
                    insert_destination: metadata.insert_destination@,
                    query_address: metadata.query_address@,
                    schema_type: t,
                }),
            },
    {
        match SchemaType::from_number(metadata.schema_type) {
            Some(schema_type) => Ok(
                Schema {
                    id,
                    name: metadata.name,
                    query_address: metadata.query_address,
                    insert_destination: metadata.insert_destination,
                    schema_type,
                },
            ),
            None => Err(CacheError::InvalidSchemaType(metadata.schema_type)),
        }
    }

    /// Handles a message of the stream of schema changes: a changed schema replaces the
    /// cached one of its id (which becomes the most recently used) and the stream goes on; a
    /// schema that does not read, an error or the end of the stream stops it.
    pub fn on_schema_update(&mut self, update: Result<Option<SchemaMessage>, CacheError>) -> (r:
        UpdateStep)
        requires
            old(self).wf(),
        ensures
            final(self).wf(),
            final(self).capacity() == old(self).capacity(),
            final(self).registry_addr() == old(self).registry_addr(),
            match update {
                Err(e) => r == UpdateStep::Stop(Some(e)) && final(self).entries() == old(self).entries(),
                Ok(None) => r == UpdateStep::Stop(None) && final(self).entries() == old(self).entries(),
                Ok(Some(m)) => match parsed_id(m.id@) {
                    None => r == UpdateStep::Stop(Some(CacheError::MalformedSchema)) && final(self).entries() == old(self).entries(),
                    Some(id) => match schema_type_of(m.schema_type) {
                        None => r == UpdateStep::Stop(
                            Some(CacheError::InvalidSchemaType(m.schema_type)),
                        ) && final(self).entries() == old(self).entries(),
                        Some(t) => {
                            let s = SchemaModel {
                                id,
                                name: m.name@,
                                insert_destination: m.insert_destination@,
                                query_address: m.query_address@,
                                schema_type: t,
                            };
                            &&& r == UpdateStep::Continue
                            &&& final(self).entries() == if has_key(old(self).entries(), id) {
                                put(old(self).entries(), id, s, old(self).capacity())
                            } else {
                                old(self).entries()
                            }
                        },
                    },
                },
            },
    {
        match update {
            Err(e) => UpdateStep::Stop(Some(e)),
            Ok(None) => UpdateStep::Stop(None),
            Ok(Some(message)) => match Self::parse_schema(message) {
                Err(e) => UpdateStep::Stop(Some(e)),
                Ok(schema) => {
                    let id = schema.id;
                    let ghost before = self.entries();
                    let ghost sv = schema@;
                    let present = lru_contains(&mut self.schemas, id);
                    proof {
                        lemma_touched(before, id);
                    }
                    if present {
                        let ghost mid = self.entries();
                        lru_insert(&mut self.schemas, id, schema);
                        proof {
                            lemma_put(mid, id, sv, self.capacity());
                            lemma_touch_then_put(before, id, sv, self.capacity());
                        }
                    }
                    UpdateStep::Continue
                },
            },
        }
    }

    /// First step of getting a schema: whether it must be fetched from the registry (it is
    /// not cached). Looking it up makes a cached one the most recently used.
    pub fn needs_fetch(&mut self, id: u128) -> (r: bool)
        requires
            old(self).wf(),
        ensures
            final(self).wf(),
            final(self).capacity() == old(self).capacity(),
            final(self).registry_addr() == old(self).registry_addr(),
            r == !has_key(old(self).entries(), id),
            final(self).entries() == touched(old(self).entries(), id),
    {
        let ghost before = self.entries();
        let r = !lru_contains(&mut self.schemas, id);
        proof {
            lemma_touched(before, id);
        }
        r
    }

    /// Last step of getting a schema: a fetched schema is cached first; then the cached one
    /// is given, or `MissingSchema` where the cache does not hold it (it holds nothing at
    /// capacity zero).
    pub fn finish_get(&mut self, id: u128, fetched: Option<Schema>) -> (r: Result<Schema, CacheError>)
        requires
            old(self).wf(),
        ensures
            final(self).wf(),
            final(self).capacity() == old(self).capacity(),
            final(self).registry_addr() == old(self).registry_addr(),
            ({
                let after_put = match fetched {
                    Some(s) => put(old(self).entries(), id, s@, old(self).capacity()),
                    None => old(self).entries(),
                };
                &&& final(self).entries() == touched(after_put, id)
                &&& match r {
                    Ok(s) => has_key(after_put, id) && s@ == value_at(after_put, id),
                    Err(e) => !has_key(after_put, id) && e == CacheError::MissingSchema,
                }
            }),
    {
        let ghost start = self.entries();
        match fetched {
            Some(s) => {
                let ghost sv = s@;
                lru_insert(&mut self.schemas, id, s);
                proof {
                    lemma_put(start, id, sv, self.capacity());
                }
            },
            None => {},
        }
        let ghost mid = self.entries();
        let got = lru_get(&mut self.schemas, id);
        proof {
            lemma_touched(mid, id);
        }
        match got {
            Some(s) => Ok(s),
            None => Err(CacheError::MissingSchema),
        }
    }
}

/// Using a key keeps the entries' keys distinct and their number.
pub proof fn lemma_touched(s: Seq<(u128, SchemaModel)>, k: u128)
    requires
        keys_distinct(s),
    ensures
        keys_distinct(touched(s, k)),
        touched(s, k).len() == s.len(),
{
    if has_key(s, k) {
        let i = first_key_index(s, k);
        let j = choose|j: int| 0 <= j < s.len() && s[j].0 == k;
        lemma_first_key(s, k, j);
        let t = touched(s, k);
        let r = s.remove(i);
        assert forall|a: int, b: int| 0 <= a < b < t.len() implies t[a].0 != t[b].0 by {
            if b == t.len() - 1 {
                assert(t[b] == s[i]);
                if a < i {
                    assert(t[a] == s[a]);
                } else {
                    assert(t[a] == s[a + 1]);
                }
            } else {
                let sa = if a < i { a } else { a + 1 };
                let sb = if b < i { b } else { b + 1 };
                assert(t[a] == s[sa]);
                assert(t[b] == s[sb]);
            }
        }
    }
}

/// Putting a value keeps the entries' keys distinct and their number within the capacity.
pub proof fn lemma_put(s: Seq<(u128, SchemaModel)>, k: u128, v: SchemaModel, capacity: nat)
    requires
        keys_distinct(s),
        s.len() <= capacity,
    ensures
        keys_distinct(put(s, k, v, capacity)),
        put(s, k, v, capacity).len() <= capacity,
{
    let kept = if has_key(s, k) {
        s.remove(first_key_index(s, k))
    } else {
        s
    };
    if has_key(s, k) {
        let j = choose|j: int| 0 <= j < s.len() && s[j].0 == k;
        lemma_first_key(s, k, j);
    }
    let i = first_key_index(s, k);
    assert forall|a: int, b: int| 0 <= a < b < kept.len() implies kept[a].0 != kept[b].0 by {
        if has_key(s, k) {
            let sa = if a < i { a } else { a + 1 };
            let sb = if b < i { b } else { b + 1 };
            assert(kept[a] == s[sa]);
            assert(kept[b] == s[sb]);
        }
    }
    assert forall|a: int| 0 <= a < kept.len() implies kept[a].0 != k by {
        if has_key(s, k) {
            let sa = if a < i { a } else { a + 1 };
            assert(kept[a] == s[sa]);
            assert(sa != i);
        } else {
            assert(!(s[a].0 == k));
        }
    }
    let added = kept.push((k, v));
    assert forall|a: int, b: int| 0 <= a < b < added.len() implies added[a].0 != added[b].0 by {
        if b == kept.len() {
            assert(kept[a].0 != k);
        } else {
            assert(kept[a].0 != kept[b].0);
        }
    }
    if added.len() > capacity {
        let d = added.drop_first();
        assert forall|a: int, b: int| 0 <= a < b < d.len() implies d[a].0 != d[b].0 by {
            assert(d[a] == added[a + 1]);
            assert(d[b] == added[b + 1]);
        }
    }
}

/// Changing the value of a key after using it is putting the value.
pub proof fn lemma_touch_then_put(s: Seq<(u128, SchemaModel)>, k: u128, v: SchemaModel, capacity: nat)
    requires
        keys_distinct(s),
        s.len() <= capacity,
        has_key(s, k),
    ensures
        put(touched(s, k), k, v, capacity) == put(s, k, v, capacity),
{
    let j = choose|j: int| 0 <= j < s.len() && s[j].0 == k;
    lemma_first_key(s, k, j);
    let i = first_key_index(s, k);
    let t = touched(s, k);
    lemma_touched(s, k);
    lemma_first_key(t, k, t.len() - 1);
    assert(t.remove(t.len() - 1) =~= s.remove(i));
}

/// A schema just put into a cache that can hold one is in it, with the value put.
pub proof fn law_put_schema_is_cached(s: Seq<(u128, SchemaModel)>, k: u128, v: SchemaModel, capacity: nat)
    requires
        keys_distinct(s),
        s.len() <= capacity,
        capacity > 0,
    ensures
        has_key(put(s, k, v, capacity), k),
        value_at(put(s, k, v, capacity), k) == v,
        value_at(touched(put(s, k, v, capacity), k), k) == v,
{
    lemma_put(s, k, v, capacity);
    let p = put(s, k, v, capacity);
    let kept = if has_key(s, k) {
        s.remove(first_key_index(s, k))
    } else {
        s
    };
    let added = kept.push((k, v));
    assert(p.len() > 0);
    assert(p[p.len() - 1] == (k, v)) by {
        if added.len() > capacity {
            assert(p[p.len() - 1] == added[added.len() - 1]);
        }
    }
    lemma_first_key(p, k, p.len() - 1);
    lemma_touched(p, k);
    let t = touched(p, k);
    assert(t[t.len() - 1] == p[p.len() - 1]);
    lemma_first_key(t, k, t.len() - 1);
}

} // verus!
