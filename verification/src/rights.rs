//! Capability rights and derivation. Deriving (minting) a capability narrows
//! its rights and may attach a badge; rights can only ever shrink across a
//! derivation, never widen.

use vstd::prelude::*;

verus! {

use crate::untyped::ObjectKind;
use crate::BootError;

/// The rights a capability carries over its object.
#[derive(Clone, Copy, Debug, PartialEq, Eq, Structural)]
pub struct Rights {
    pub read: bool,
    pub write: bool,
    pub grant: bool,
}

impl Rights {
    /// Every right of `self` is also held by `other`.
    pub open spec fn subset_of(self, other: Rights) -> bool {
        &&& (self.read ==> other.read)
        &&& (self.write ==> other.write)
        &&& (self.grant ==> other.grant)
    }

    pub open spec fn spec_all() -> Rights {
        Rights { read: true, write: true, grant: true }
    }

    pub open spec fn spec_read_only() -> Rights {
        Rights { read: true, write: false, grant: false }
    }

    pub open spec fn spec_write_only() -> Rights {
        Rights { read: false, write: true, grant: false }
    }

    pub fn all() -> (r: Rights)
        ensures
            r == Rights::spec_all(),
    {
        Rights { read: true, write: true, grant: true }
    }

    pub fn read_only() -> (r: Rights)
        ensures
            r == Rights::spec_read_only(),
    {
        Rights { read: true, write: false, grant: false }
    }

    pub fn write_only() -> (r: Rights)
        ensures
            r == Rights::spec_write_only(),
    {
        Rights { read: false, write: true, grant: false }
    }

    pub fn is_subset_of(&self, other: &Rights) -> (b: bool)
        ensures
            b == self.subset_of(*other),
    {
        (!self.read || other.read) && (!self.write || other.write) && (!self.grant || other.grant)
    }
}

/// An unforgeable, rights-qualified reference to a kernel object.
#[derive(Clone, Copy, Debug, PartialEq, Eq, Structural)]
pub struct Capability {
    /// Identity of the object referred to: the root-table slot its original
    /// capability was created in.
    pub object: u64,
    pub kind: ObjectKind,
    pub rights: Rights,
    /// Integer tag reported to a receiver when the capability signals a
    /// shared notification; zero means unbadged.
    pub badge: u64,
}

/// What deriving `requested` rights and `badge` from `source` yields, if the
/// request does not exceed the rights held.
pub open spec fn spec_derive(source: Capability, requested: Rights, badge: u64) -> Option<
    Capability,
> {
    if requested.subset_of(source.rights) {
        Some(Capability { rights: requested, badge, ..source })
    } else {
        None
    }
}

/// Derive (mint) a copy of `source` carrying exactly `requested` rights and
/// `badge`; refused outright if `requested` exceeds the rights held.
pub fn derive(source: &Capability, requested: Rights, badge: u64) -> (r: Result<
    Capability,
    BootError,
>)
    ensures
        r is Ok <==> requested.subset_of(source.rights),
        r matches Ok(c) ==> spec_derive(*source, requested, badge) == Some(c),
        r is Err ==> r == Err::<Capability, BootError>(BootError::RightsViolation),
{
    if requested.is_subset_of(&source.rights) {
        Ok(Capability { object: source.object, kind: source.kind, rights: requested, badge })
    } else {
        Err(BootError::RightsViolation)
    }
}

/// The capability may signal (send on) a notification.
pub open spec fn can_signal(c: Capability) -> bool {
    c.rights.write
}

/// The capability may wait (receive) on a notification.
pub open spec fn can_wait(c: Capability) -> bool {
    c.rights.read
}

/// Rights are monotone decreasing under derivation: whatever rights a derived
/// capability carries were already held by its source.
pub proof fn lemma_derive_narrows(source: Capability, requested: Rights, badge: u64, c: Capability)
    requires
        spec_derive(source, requested, badge) == Some(c),
    ensures
        c.rights.subset_of(source.rights),
{
}

/// Narrowing composes: a capability derived from a derived capability still
/// holds no right beyond the original source's.
pub proof fn lemma_narrowing_transitive(a: Rights, b: Rights, c: Rights)
    requires
        a.subset_of(b),
        b.subset_of(c),
    ensures
        a.subset_of(c),
{
}

/// A capability derived with write-only rights can signal but can never be
/// used to receive.
pub proof fn lemma_write_only_cannot_receive(source: Capability, badge: u64, c: Capability)
    requires
        spec_derive(source, Rights::spec_write_only(), badge) == Some(c),
    ensures
        can_signal(c),
        !can_wait(c),
{
}

/// A capability derived with read-only rights can receive but can never be
/// used to signal.
pub proof fn lemma_read_only_cannot_send(source: Capability, badge: u64, c: Capability)
    requires
        spec_derive(source, Rights::spec_read_only(), badge) == Some(c),
    ensures
        can_wait(c),
        !can_signal(c),
{
}

} // verus!
