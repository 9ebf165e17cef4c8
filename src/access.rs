use vstd::prelude::*;

verus! {

/// The shared-config identifiers that one bearer token may read.
pub struct Grant {
    pub token: String,
    pub shared_configs: Vec<i32>,
}

/// Whether no two grants name the same token.
pub open spec fn tokens_unique(gs: Seq<Grant>) -> bool {
    forall|i: int, j: int|
        0 <= i < gs.len() && 0 <= j < gs.len() && i != j ==> gs[i].token@ != gs[j].token@
}

/// Whether some two grants, at distinct positions, both name token `t`.
pub open spec fn token_repeated(gs: Seq<Grant>, t: Seq<char>) -> bool {
    exists|i: int, j: int|
        0 <= i < j < gs.len() && gs[i].token@ == t && gs[j].token@ == t
}

/// The static mapping from bearer token to the shared configs it may read,
/// fixed once it is built.
pub struct SharedAccess {
    grants: Vec<Grant>,
}

impl SharedAccess {
    /// The grants, in the order they were given.
    pub closed spec fn grants(self) -> Seq<Grant> {
        self.grants@
    }

    /// Each token is granted at most once.
    pub open spec fn wf(self) -> bool {
        tokens_unique(self.grants())
    }

    /// Whether some grant names token `t`.
    pub open spec fn has_grant(self, t: Seq<char>) -> bool {
        exists|i: int| 0 <= i < self.grants().len() && self.grants()[i].token@ == t
    }

    /// The shared identifiers visible to token `t`; none for a token without a grant.
    pub open spec fn visible_ids(self, t: Seq<char>) -> Seq<i32> {
        if self.has_grant(t) {
            let i = choose|i: int| 0 <= i < self.grants().len() && self.grants()[i].token@ == t;
            self.grants()[i].shared_configs@
        } else {
            Seq::empty()
        }
    }

    /// Whether token `t` is entitled to read shared config `id`.
    pub open spec fn may_read(self, t: Seq<char>, id: i32) -> bool {
        self.visible_ids(t).contains(id)
    }

    /// A mapping that grants nothing to anybody.
    pub fn new() -> (r: SharedAccess)
        ensures
            r.wf(),
            r.grants().len() == 0,
    {
        SharedAccess { grants: Vec::new() }
    }

    /// Builds the mapping from its grants; a token granted twice is refused and
    /// handed back.
    pub fn from_grants(grants: Vec<Grant>) -> (r: Result<SharedAccess, String>)
        ensures
            r is Ok <==> tokens_unique(grants@),
            r matches Ok(a) ==> a.grants() == grants@,
            r matches Err(t) ==> token_repeated(grants@, t@),
    {
        let n = grants.len();
        let mut j: usize = 1;
        while j < n
            invariant
                1 <= j <= n || n == 0,
                n == grants@.len(),
                forall|a: int, b: int|
                    0 <= a < b < j && b < n ==> grants@[a].token@ != grants@[b].token@,
            decreases n - j,
        {
            let mut i: usize = 0;
            while i < j
                invariant
                    0 <= i <= j < n,
                    n == grants@.len(),
                    forall|a: int| 0 <= a < i ==> grants@[a].token@ != grants@[j as int].token@,
                decreases j - i,
            {
                if grants[i].token == grants[j].token {
                    return Err(grants[j].token.clone());
                }
                i += 1;
            }
            j += 1;
        }
        proof {
            assert forall|a: int, b: int|
                0 <= a < grants@.len() && 0 <= b < grants@.len() && a != b
                implies grants@[a].token@ != grants@[b].token@ by {
                if a < b {
                } else {
                }
            }
        }
        Ok(SharedAccess { grants })
    }

    /// The position of the grant for token `t`, if there is one.
    fn find(&self, t: &String) -> (r: Option<usize>)
        requires
            self.wf(),
        ensures
            r is Some <==> self.has_grant(t@),
            r matches Some(i) ==> i < self.grants().len() && self.grants()[i as int].token@ == t@
                && self.visible_ids(t@) == self.grants()[i as int].shared_configs@,
    {
        let mut i: usize = 0;
        while i < self.grants.len()
            invariant
                self.wf(),
                i <= self.grants@.len(),
                forall|a: int| 0 <= a < i ==> self.grants@[a].token@ != t@,
            decreases self.grants@.len() - i,
        {
            if self.grants[i].token == *t {
                proof {
                    assert(self.grants()[i as int].token@ == t@);
                    let k = choose|k: int|
                        0 <= k < self.grants().len() && self.grants()[k].token@ == t@;
                    assert(k == i);
                }
                return Some(i);
            }
            i += 1;
        }
        None
    }

    /// The shared identifiers visible to token `t`, in the order they were granted.
    pub fn visible_shared_ids(&self, t: &String) -> (r: Vec<i32>)
        requires
            self.wf(),
        ensures
            r@ == self.visible_ids(t@),
    {
        match self.find(t) {
            Some(i) => {
                let ids = &self.grants[i].shared_configs;
                let mut out: Vec<i32> = Vec::new();
                let mut k: usize = 0;
                while k < ids.len()
                    invariant
                        k <= ids@.len(),
                        out@ == ids@.subrange(0, k as int),
                    decreases ids@.len() - k,
                {
                    out.push(ids[k]);
                    k += 1;
                    assert(out@ =~= ids@.subrange(0, k as int));
                }
                assert(out@ =~= ids@);
                out
            },
            None => Vec::new(),
        }
    }

    /// Whether token `t` is entitled to read shared config `id`.
    pub fn may_read_shared(&self, t: &String, id: i32) -> (r: bool)
        requires
            self.wf(),
        ensures
            r == self.may_read(t@, id),
    {
        match self.find(t) {
            Some(i) => {
                let ids = &self.grants[i].shared_configs;
                let mut k: usize = 0;
                while k < ids.len()
                    invariant
                        k <= ids@.len(),
                        ids@ == self.visible_ids(t@),
                        forall|a: int| 0 <= a < k ==> ids@[a] != id,
                    decreases ids@.len() - k,
                {
                    if ids[k] == id {
                        assert(ids@[k as int] == id);
                        return true;
                    }
                    k += 1;
                }
                false
            },
            None => false,
        }
    }
}

} // verus!
