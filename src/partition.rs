use vstd::prelude::*;

verus! {

/// Identifiers in `1..MAX_SHARED_CONFIG_ID` name shared configs; every other
/// identifier names a private one.
pub const MAX_SHARED_CONFIG_ID: i32 = 1000;

/// Whether an identifier lies in the reserved shared range.
pub open spec fn is_shared_id(id: int) -> bool {
    1 <= id < MAX_SHARED_CONFIG_ID
}

/// An identifier together with the class its numeric range gives it.
#[derive(Clone, Copy, Debug, PartialEq, Eq, Structural)]
pub enum Resource {
    Shared(i32),
    Private(i32),
}

impl Resource {
    /// The identifier carried by either variant.
    pub open spec fn spec_id(self) -> i32 {
        match self {
            Resource::Shared(id) => id,
            Resource::Private(id) => id,
        }
    }

    pub fn id(&self) -> (r: i32)
        ensures
            r == self.spec_id(),
    {
        match self {
            Resource::Shared(id) => *id,
            Resource::Private(id) => *id,
        }
    }
}

/// Classifies an identifier by its range alone, before any storage access.
pub fn classify(id: i32) -> (r: Resource)
    ensures
        r.spec_id() == id,
        r is Shared <==> is_shared_id(id as int),
        r is Private <==> !is_shared_id(id as int),
{
    if 1 <= id && id < MAX_SHARED_CONFIG_ID {
        Resource::Shared(id)
    } else {
        Resource::Private(id)
    }
}

} // verus!
