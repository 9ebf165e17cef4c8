use vstd::prelude::*;

use crate::access::SharedAccess;
use crate::partition::{classify, is_shared_id, Resource, MAX_SHARED_CONFIG_ID};

verus! {

/// A config as storage holds it.
#[derive(Debug)]
pub struct Row {
    pub id: i32,
    pub owner: String,
    pub content: String,
}

/// A config as a caller receives it; `content` is `None` where it is withheld.
#[derive(Debug)]
pub struct Config {
    pub id: i32,
    pub owner: String,
    pub content: Option<String>,
}

/// A creation request: the content alone, the owner comes from the caller's token.
pub struct NewConfig {
    pub content: String,
}

/// An update request: the replacement content.
pub struct UpdateConfig {
    pub content: String,
}

/// Why an operation on the store did not succeed.
#[derive(Clone, Copy, Debug, PartialEq, Eq, Structural)]
pub enum StoreError {
    /// The caller is not entitled to the config, or it does not exist.
    Unauthorized,
    /// Updating a shared config is reserved and not offered.
    Unimplemented,
    /// Storage cannot take the request.
    Storage,
}

/// A row handed out in full.
pub open spec fn full(r: Row) -> Config {
    Config { id: r.id, owner: r.owner, content: Some(r.content) }
}

/// A row handed out without its content.
pub open spec fn stripped(r: Row) -> Config {
    Config { id: r.id, owner: r.owner, content: None }
}

/// No two rows share an identifier.
pub open spec fn ids_unique(rows: Seq<Row>) -> bool {
    forall|i: int, j: int|
        0 <= i < rows.len() && 0 <= j < rows.len() && i != j ==> rows[i].id != rows[j].id
}

/// Whether some row has identifier `id`.
pub open spec fn has_row(rows: Seq<Row>, id: i32) -> bool {
    exists|i: int| 0 <= i < rows.len() && rows[i].id == id
}

/// The row with identifier `id` (meaningful where `has_row` holds).
pub open spec fn row_of(rows: Seq<Row>, id: i32) -> Row {
    let i = choose|i: int| 0 <= i < rows.len() && rows[i].id == id;
    rows[i]
}

/// Whether row `id` exists and token `t` owns it.
pub open spec fn owned_by(rows: Seq<Row>, id: i32, t: Seq<char>) -> bool {
    has_row(rows, id) && row_of(rows, id).owner@ == t
}

/// The private rows that token `t` owns, in full, in storage order.
pub open spec fn owned_listing(rows: Seq<Row>, t: Seq<char>) -> Seq<Config>
    decreases rows.len(),
{
    if rows.len() == 0 {
        Seq::empty()
    } else {
        let prev = owned_listing(rows.drop_last(), t);
        let r = rows.last();
        if r.owner@ == t && !is_shared_id(r.id as int) {
            prev.push(full(r))
        } else {
            prev
        }
    }
}

/// The stored shared configs among `ids`, without content, in the order of
/// `ids`; identifiers outside the shared range or absent from storage are skipped.
pub open spec fn shared_listing(rows: Seq<Row>, ids: Seq<i32>) -> Seq<Config>
    decreases ids.len(),
{
    if ids.len() == 0 {
        Seq::empty()
    } else {
        let prev = shared_listing(rows, ids.drop_last());
        let id = ids.last();
        if is_shared_id(id as int) && has_row(rows, id) {
            prev.push(stripped(row_of(rows, id)))
        } else {
            prev
        }
    }
}

/// The rows with the content of row `id` replaced by `c`.
pub open spec fn with_content(rows: Seq<Row>, id: i32, c: String) -> Seq<Row> {
    Seq::new(
        rows.len(),
        |i: int|
            if rows[i].id == id {
                Row { id: rows[i].id, owner: rows[i].owner, content: c }
            } else {
                rows[i]
            },
    )
}

/// What fetching config `id` for token `t` yields from `rows` under `access`:
/// a shared config in full if `t` is granted it and it is stored, a private one
/// in full if `t` owns it, and otherwise `Unauthorized`.
pub open spec fn fetch_outcome(rows: Seq<Row>, access: SharedAccess, t: Seq<char>, id: i32) -> Result<Config, StoreError> {
    if is_shared_id(id as int) {
        if access.may_read(t, id) && has_row(rows, id) {
            Ok(full(row_of(rows, id)))
        } else {
            Err(StoreError::Unauthorized)
        }
    } else if owned_by(rows, id, t) {
        Ok(full(row_of(rows, id)))
    } else {
        Err(StoreError::Unauthorized)
    }
}

/// Configs in storage, read and written under the access rules: private configs
/// by their owner alone, shared configs by the tokens granted them.
pub struct ConfigStore {
    rows: Vec<Row>,
    next_id: i32,
    access: SharedAccess,
}

impl ConfigStore {
    /// The stored rows.
    pub closed spec fn rows(self) -> Seq<Row> {
        self.rows@
    }

    /// The identifier the next created config receives.
    pub closed spec fn next_id(self) -> i32 {
        self.next_id
    }

    /// The shared-access mapping the store was built with.
    pub closed spec fn access(self) -> SharedAccess {
        self.access
    }

    /// Identifiers are unique, and every one is below the next to be handed out,
    /// which lies in the private range.
    pub open spec fn wf(self) -> bool {
        &&& ids_unique(self.rows())
        &&& MAX_SHARED_CONFIG_ID <= self.next_id()
        &&& forall|i: int| 0 <= i < self.rows().len() ==> self.rows()[i].id < self.next_id()
        &&& self.access().wf()
    }

    /// What a listing for token `t` holds: its own private configs in full, then
    /// the shared configs granted to it, without content.
    pub open spec fn listing(self, t: Seq<char>) -> Seq<Config> {
        owned_listing(self.rows(), t) + shared_listing(self.rows(), self.access().visible_ids(t))
    }

    /// What fetching config `id` for token `t` yields.
    pub open spec fn fetch_result(self, t: Seq<char>, id: i32) -> Result<Config, StoreError> {
        fetch_outcome(self.rows(), self.access(), t, id)
    }

    /// What updating config `id` for token `t` yields.
    pub open spec fn update_result(self, t: Seq<char>, id: i32) -> Result<(), StoreError> {
        if is_shared_id(id as int) {
            Err(StoreError::Unimplemented)
        } else if owned_by(self.rows(), id, t) {
            Ok(())
        } else {
            Err(StoreError::Unauthorized)
        }
    }

    /// An empty store that reads shared grants from `access`.
    pub fn new(access: SharedAccess) -> (r: ConfigStore)
        requires
            access.wf(),
        ensures
            r.wf(),
            r.rows().len() == 0,
            r.next_id() == MAX_SHARED_CONFIG_ID,
            r.access() == access,
    {
        ConfigStore { rows: Vec::new(), next_id: MAX_SHARED_CONFIG_ID, access }
    }

    /// The position of row `id`, if it is stored.
    fn find_row(&self, id: i32) -> (r: Option<usize>)
        requires
            self.wf(),
        ensures
            r is Some <==> has_row(self.rows(), id),
            r matches Some(k) ==> k < self.rows().len() && self.rows()[k as int].id == id
                && row_of(self.rows(), id) == self.rows()[k as int],
    {
        let mut k: usize = 0;
        while k < self.rows.len()
            invariant
                self.wf(),
                k <= self.rows@.len(),
                forall|a: int| 0 <= a < k ==> self.rows@[a].id != id,
            decreases self.rows@.len() - k,
        {
            if self.rows[k].id == id {
                proof {
                    assert(self.rows()[k as int].id == id);
                    let j = choose|j: int| 0 <= j < self.rows().len() && self.rows()[j].id == id;
                    assert(j == k);
                }
                return Some(k);
            }
            k += 1;
        }
        None
    }

    /// Row `k` handed out in full.
    fn config_at(&self, k: usize) -> (r: Config)
        requires
            k < self.rows().len(),
        ensures
            r == full(self.rows()[k as int]),
    {
        let row = &self.rows[k];
        Config { id: row.id, owner: row.owner.clone(), content: Some(row.content.clone()) }
    }

    /// Row `k` handed out without its content.
    fn stripped_at(&self, k: usize) -> (r: Config)
        requires
            k < self.rows().len(),
        ensures
            r == stripped(self.rows()[k as int]),
    {
        let row = &self.rows[k];
        Config { id: row.id, owner: row.owner.clone(), content: None }
    }

    /// Adds a shared config; refused unless `id` lies in the shared range and is
    /// not stored yet. Shared configs are never changed afterwards.
    pub fn insert_shared_config(&mut self, id: i32, owner: String, content: String) -> (r: Result<(), StoreError>)
        requires
            old(self).wf(),
        ensures
            final(self).wf(),
            final(self).access() == old(self).access(),
            final(self).next_id() == old(self).next_id(),
            r is Ok <==> is_shared_id(id as int) && !has_row(old(self).rows(), id),
            r matches Err(e) ==> e == StoreError::Storage && final(self).rows() == old(self).rows(),
            r is Ok ==> final(self).rows() == old(self).rows().push(
                (Row { id, owner, content }),
            ),
    {
        match classify(id) {
            Resource::Shared(_) => {},
            Resource::Private(_) => {
                return Err(StoreError::Storage);
            },
        }
        if self.find_row(id).is_some() {
            return Err(StoreError::Storage);
        }
        self.rows.push(Row { id, owner, content });
        Ok(())
    }

    /// The private configs that token `t` owns, in full, followed by the shared
    /// configs granted to it, without their content.
    pub fn list_for_user(&self, t: &String) -> (r: Vec<Config>)
        requires
            self.wf(),
        ensures
            r@ == self.listing(t@),
    {
        let mut out: Vec<Config> = Vec::new();
        let n = self.rows.len();
        let mut i: usize = 0;
        while i < n
            invariant
                self.wf(),
                n == self.rows@.len(),
                i <= n,
                out@ == owned_listing(self.rows@.subrange(0, i as int), t@),
            decreases n - i,
        {
            assert(self.rows@.subrange(0, i + 1).drop_last() =~= self.rows@.subrange(0, i as int));
            let id = self.rows[i].id;
            if self.rows[i].owner == *t && !(1 <= id && id < MAX_SHARED_CONFIG_ID) {
                out.push(self.config_at(i));
            }
            i += 1;
        }
        assert(self.rows@.subrange(0, n as int) =~= self.rows@);
        let ids = self.access.visible_shared_ids(t);
        let ghost base = out@;
        let mut k: usize = 0;
        while k < ids.len()
            invariant
                self.wf(),
                k <= ids@.len(),
                out@ == base + shared_listing(self.rows@, ids@.subrange(0, k as int)),
            decreases ids@.len() - k,
        {
            assert(ids@.subrange(0, k + 1).drop_last() =~= ids@.subrange(0, k as int));
            let ghost prev = shared_listing(self.rows@, ids@.subrange(0, k as int));
            let id = ids[k];
            if let Resource::Shared(_) = classify(id) {
                if let Some(j) = self.find_row(id) {
                    let c = self.stripped_at(j);
                    out.push(c);
                    assert((base + prev).push(c) =~= base + prev.push(c));
                }
            }
            k += 1;
        }
        assert(ids@.subrange(0, ids@.len() as int) =~= ids@);
        out
    }

    /// Config `id` for token `t`: a shared config if `t` is granted it, a private
    /// one if `t` owns it. Whether the config is absent or forbidden is not told
    /// apart.
    pub fn fetch(&self, t: &String, id: i32) -> (r: Result<Config, StoreError>)
        requires
            self.wf(),
        ensures
            r == self.fetch_result(t@, id),
    {
        match classify(id) {
            Resource::Shared(_) => {
                if !self.access.may_read_shared(t, id) {
                    return Err(StoreError::Unauthorized);
                }
                match self.find_row(id) {
                    Some(k) => Ok(self.config_at(k)),
                    None => Err(StoreError::Unauthorized),
                }
            },
            Resource::Private(_) => {
                match self.find_row(id) {
                    Some(k) => {
                        if self.rows[k].owner == *t {
                            Ok(self.config_at(k))
                        } else {
                            Err(StoreError::Unauthorized)
                        }
                    },
                    None => Err(StoreError::Unauthorized),
                }
            },
        }
    }

    /// Stores a new private config owned by token `t` and returns its identifier.
    /// The owner is always `t`; the request carries no owner of its own. Refused
    /// only when the identifier space is used up.
    pub fn create(&mut self, t: &String, new: NewConfig) -> (r: Result<i32, StoreError>)
        requires
            old(self).wf(),
        ensures
            final(self).wf(),
            final(self).access() == old(self).access(),
            r is Err <==> old(self).next_id() == i32::MAX,
            r matches Err(e) ==> e == StoreError::Storage && final(self).rows() == old(self).rows()
                && final(self).next_id() == old(self).next_id(),
            r matches Ok(id) ==> {
                &&& id == old(self).next_id()
                &&& !is_shared_id(id as int)
                &&& !has_row(old(self).rows(), id)
                &&& final(self).rows() == old(self).rows().push((Row { id, owner: *t, content: new.content }))
                &&& final(self).next_id() == id + 1
            },
    {
        if self.next_id == i32::MAX {
            return Err(StoreError::Storage);
        }
        let id = self.next_id;
        self.rows.push(Row { id, owner: t.clone(), content: new.content });
        self.next_id = id + 1;
        Ok(id)
    }

    /// Replaces the content of private config `id`, provided token `t` owns it.
    /// Ownership is looked up again first, so that a caller learns only whether it
    /// was entitled. Updating a shared config is not offered.
    pub fn update(&mut self, t: &String, id: i32, upd: UpdateConfig) -> (r: Result<(), StoreError>)
        requires
            old(self).wf(),
        ensures
            final(self).wf(),
            final(self).access() == old(self).access(),
            final(self).next_id() == old(self).next_id(),
            r == old(self).update_result(t@, id),
            r is Err ==> final(self).rows() == old(self).rows(),
            r is Ok ==> final(self).rows() == with_content(old(self).rows(), id, upd.content),
            !is_shared_id(id as int) && !owned_by(old(self).rows(), id, t@) ==> r == Err::<(), StoreError>(StoreError::Unauthorized)
                && final(self).rows() == old(self).rows(),
    {
        if let Resource::Shared(_) = classify(id) {
            return Err(StoreError::Unimplemented);
        }
        let k = match self.find_row(id) {
            Some(k) => k,
            None => {
                return Err(StoreError::Unauthorized);
            },
        };
        if self.rows[k].owner != *t {
            return Err(StoreError::Unauthorized);
        }
        let ghost rows0 = self.rows@;
        let owner = self.rows[k].owner.clone();
        let c = upd.content;
        let ghost cg = c;
        self.rows.set(k, Row { id, owner, content: c });
        assert(self.rows@ =~= with_content(rows0, id, cg));
        Ok(())
    }
}


/// Every entry of a private listing is a private config of token `t`, in full.
proof fn lemma_owned_listing_entries(rows: Seq<Row>, t: Seq<char>)
    ensures
        forall|k: int|
            0 <= k < owned_listing(rows, t).len() ==> {
                let c = #[trigger] owned_listing(rows, t)[k];
                &&& c.owner@ == t
                &&& !is_shared_id(c.id as int)
                &&& c.content is Some
            },
    decreases rows.len(),
{
    if rows.len() > 0 {
        lemma_owned_listing_entries(rows.drop_last(), t);
    }
}

/// Every entry of a shared listing is a shared config without content.
proof fn lemma_shared_listing_entries(rows: Seq<Row>, ids: Seq<i32>)
    ensures
        forall|k: int|
            0 <= k < shared_listing(rows, ids).len() ==> {
                let c = #[trigger] shared_listing(rows, ids)[k];
                &&& is_shared_id(c.id as int)
                &&& c.content is None
            },
    decreases ids.len(),
{
    if ids.len() > 0 {
        let id = ids.last();
        lemma_shared_listing_entries(rows, ids.drop_last());
        if is_shared_id(id as int) && has_row(rows, id) {
            assert(row_of(rows, id).id == id);
        }
    }
}

/// A listing never holds a private config of another token, and never the
/// content of a shared config.
pub proof fn lemma_listing_confined(store: ConfigStore, t: Seq<char>)
    requires
        store.wf(),
    ensures
        forall|k: int|
            0 <= k < store.listing(t).len() ==> {
                let c = #[trigger] store.listing(t)[k];
                &&& !is_shared_id(c.id as int) ==> c.owner@ == t
                &&& is_shared_id(c.id as int) ==> c.content is None
            },
{
    let own = owned_listing(store.rows(), t);
    let shared = shared_listing(store.rows(), store.access().visible_ids(t));
    lemma_owned_listing_entries(store.rows(), t);
    lemma_shared_listing_entries(store.rows(), store.access().visible_ids(t));
    assert forall|k: int| 0 <= k < store.listing(t).len() implies {
        let c = #[trigger] store.listing(t)[k];
        &&& !is_shared_id(c.id as int) ==> c.owner@ == t
        &&& is_shared_id(c.id as int) ==> c.content is None
    } by {
        if k < own.len() {
            assert(store.listing(t)[k] == own[k]);
        } else {
            assert(store.listing(t)[k] == shared[k - own.len()]);
        }
    }
}

/// Fetching a private config that the caller does not own has the same outcome
/// as fetching an identifier that is not stored at all: `Unauthorized`.
pub proof fn lemma_unowned_fetch_like_absent(store: ConfigStore, t: Seq<char>, id: i32, absent: i32)
    requires
        store.wf(),
        !is_shared_id(id as int),
        !owned_by(store.rows(), id, t),
        !has_row(store.rows(), absent),
    ensures
        store.fetch_result(t, id) == store.fetch_result(t, absent),
        store.fetch_result(t, id) == Err::<Config, StoreError>(StoreError::Unauthorized),
{
}

/// An update by the owner of a stored private config succeeds, leaves the owner
/// in place so that the same update succeeds again, and applying it a second
/// time stores exactly what the first did.
pub proof fn lemma_update_idempotent(store: ConfigStore, t: Seq<char>, id: i32, c: String)
    requires
        store.wf(),
        !is_shared_id(id as int),
        owned_by(store.rows(), id, t),
    ensures
        store.update_result(t, id) is Ok,
        ({
            let once = with_content(store.rows(), id, c);
            &&& owned_by(once, id, t)
            &&& row_of(once, id) == (Row { id, owner: row_of(store.rows(), id).owner, content: c })
            &&& with_content(once, id, c) == once
        }),
{
    let rows = store.rows();
    let once = with_content(rows, id, c);
    let i = choose|i: int| 0 <= i < rows.len() && rows[i].id == id;
    assert(once[i].id == id);
    let j = choose|j: int| 0 <= j < once.len() && once[j].id == id;
    assert(rows[j].id == id);
    assert(j == i);
    assert(with_content(once, id, c) =~= once);
}


/// After token `t` creates a config, fetching it as `t` returns exactly the
/// stored content with `t` as owner, and fetching it as any other token is
/// refused as `Unauthorized`.
pub proof fn lemma_created_fetch(store: ConfigStore, t: String, other: Seq<char>, id: i32, content: String)
    requires
        store.wf(),
        id == store.next_id(),
        other != t@,
    ensures
        ({
            let rows = store.rows().push((Row { id, owner: t, content }));
            &&& fetch_outcome(rows, store.access(), t@, id) == Ok::<Config, StoreError>(
                (Config { id, owner: t, content: Some(content) }),
            )
            &&& fetch_outcome(rows, store.access(), other, id) == Err::<Config, StoreError>(
                StoreError::Unauthorized,
            )
        }),
{
    let old_rows = store.rows();
    let row = Row { id, owner: t, content };
    let rows = old_rows.push(row);
    assert(rows[old_rows.len() as int].id == id);
    let j = choose|j: int| 0 <= j < rows.len() && rows[j].id == id;
    if j < old_rows.len() {
        assert(old_rows[j].id < store.next_id());
    }
    assert(j == old_rows.len());
    assert(row_of(rows, id) == row);
}

} // verus!
